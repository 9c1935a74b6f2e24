use vstd::prelude::*;

use crate::crypto::{aead_dec_of, aead_decrypt, aead_enc_of, aead_encrypt, hkdf, hkdf_spec};
use crate::error::PQFSRError;
use crate::ratchet::Packet;
use crate::session::{be32_spec, be32_val};
use crate::state::{cache_view, opt_view, RatchetState, SkippedKey};
use crate::{be64, be64_spec};

verus! {

/// Big-endian encoding of a 16-bit value.
pub open spec fn be16_spec(n: u16) -> Seq<u8> {
    seq![(n >> 8) as u8, n as u8]
}

/// Big-endian 16-bit value of two bytes.
pub open spec fn be16_val(b: Seq<u8>) -> int
    recommends
        b.len() == 2,
{
    (b[0] as int) * 0x100 + (b[1] as int)
}

/// Big-endian 64-bit value of eight bytes.
pub open spec fn be64_val(b: Seq<u8>) -> u64
    recommends
        b.len() == 8,
{
    ((b[0] as int) * 0x100000000000000 + (b[1] as int) * 0x1000000000000 + (b[2] as int)
        * 0x10000000000 + (b[3] as int) * 0x100000000 + (b[4] as int) * 0x1000000 + (b[5] as int)
        * 0x10000 + (b[6] as int) * 0x100 + (b[7] as int)) as u64
}

/// Encode a 16-bit value in big-endian byte order.
pub fn be16(n: u16) -> (r: Vec<u8>)
    ensures
        r@ == be16_spec(n),
{
    let mut v: Vec<u8> = Vec::new();
    v.push((n >> 8) as u8);
    v.push(n as u8);
    proof {
        assert(v@ =~= be16_spec(n));
    }
    v
}

/// A packet that fits the wire layout: length fields within their
/// prefixes and a 16-byte semantic tag.
pub open spec fn packet_wire_wf(p: Packet) -> bool {
    &&& p.kem_ciphertext@.len() <= 0xFFFF
    &&& p.ratchet_pub@.len() <= 0xFFFF
    &&& p.semantic_tag@.len() == 16
    &&& p.ciphertext@.len() <= 0xFFFF_FFFF
}

/// The wire image of a packet: version, count, PN, then each
/// variable-length field behind its big-endian length prefix, the
/// 16-byte semantic tag in between. The in-memory nonce is not part of
/// the wire image.
pub open spec fn pack_spec(p: Packet) -> Seq<u8> {
    seq![p.version] + be64_spec(p.count) + be64_spec(p.pn) + be16_spec(
        p.kem_ciphertext@.len() as u16,
    ) + p.kem_ciphertext@ + be16_spec(p.ratchet_pub@.len() as u16) + p.ratchet_pub@
        + p.semantic_tag@ + be32_spec(p.ciphertext@.len() as u32) + p.ciphertext@
}

/// Pack a packet into its binary wire format.
pub fn pack_packet(packet: &Packet) -> (r: Vec<u8>)
    requires
        packet_wire_wf(*packet),
    ensures
        r@ == pack_spec(*packet),
{
    let mut buf: Vec<u8> = Vec::new();
    buf.push(packet.version);
    let count_bytes = be64(packet.count);
    buf.extend_from_slice(count_bytes.as_slice());
    let pn_bytes = be64(packet.pn);
    buf.extend_from_slice(pn_bytes.as_slice());
    let kem_len = be16(packet.kem_ciphertext.len() as u16);
    buf.extend_from_slice(kem_len.as_slice());
    buf.extend_from_slice(packet.kem_ciphertext.as_slice());
    let pub_len = be16(packet.ratchet_pub.len() as u16);
    buf.extend_from_slice(pub_len.as_slice());
    buf.extend_from_slice(packet.ratchet_pub.as_slice());
    buf.extend_from_slice(packet.semantic_tag.as_slice());
    let ct_len = crate::session::be32(packet.ciphertext.len() as u32);
    buf.extend_from_slice(ct_len.as_slice());
    buf.extend_from_slice(packet.ciphertext.as_slice());
    proof {
        assert(buf@ =~= pack_spec(*packet));
    }
    buf
}

/// The KEM length field of a wire image.
pub open spec fn wire_klen(data: Seq<u8>) -> int {
    be16_val(data.subrange(17, 19))
}

/// The ratchet-key length field of a wire image.
pub open spec fn wire_plen(data: Seq<u8>) -> int {
    be16_val(data.subrange(19 + wire_klen(data), 21 + wire_klen(data)))
}

/// The ciphertext length field of a wire image.
pub open spec fn wire_clen(data: Seq<u8>) -> int {
    be32_val(
        data.subrange(
            37 + wire_klen(data) + wire_plen(data),
            41 + wire_klen(data) + wire_plen(data),
        ),
    ) as int
}

/// Whether a byte string is long enough to parse as a wire packet:
/// each length prefix must be present and covered by the data.
pub open spec fn wire_ok(data: Seq<u8>) -> bool {
    let n = data.len() as int;
    &&& n >= 19
    &&& n >= 21 + wire_klen(data)
    &&& n >= 41 + wire_klen(data) + wire_plen(data)
    &&& n >= 41 + wire_klen(data) + wire_plen(data) + wire_clen(data)
}

/// The packet fields a wire image parses to (with no in-memory nonce).
pub open spec fn wire_fields_ok(data: Seq<u8>, p: Packet) -> bool {
    let k = wire_klen(data);
    let pl = wire_plen(data);
    let c = wire_clen(data);
    &&& p.version == data[0]
    &&& p.count == be64_val(data.subrange(1, 9))
    &&& p.pn == be64_val(data.subrange(9, 17))
    &&& p.kem_ciphertext@ == data.subrange(19, 19 + k)
    &&& p.ratchet_pub@ == data.subrange(21 + k, 21 + k + pl)
    &&& p.semantic_tag@ == data.subrange(21 + k + pl, 37 + k + pl)
    &&& p.ciphertext@ == data.subrange(41 + k + pl, 41 + k + pl + c)
    &&& p.nonce is None
}

/// Copy `data[start..end]` into a fresh buffer.
fn copy_range(data: &[u8], start: usize, end: usize) -> (r: Vec<u8>)
    requires
        start <= end <= data@.len(),
    ensures
        r@ == data@.subrange(start as int, end as int),
{
    let mut out: Vec<u8> = Vec::new();
    let mut i: usize = start;
    while i < end
        invariant
            start <= i <= end <= data@.len(),
            out@ =~= data@.subrange(start as int, i as int),
        decreases end - i,
    {
        out.push(data[i]);
        proof {
            assert(out@ =~= data@.subrange(start as int, i + 1 as int));
        }
        i = i + 1;
    }
    proof {
        assert(out@ =~= data@.subrange(start as int, end as int));
    }
    out
}

/// Read a big-endian 64-bit value at `start`.
fn read_be64(data: &[u8], start: usize) -> (r: u64)
    requires
        start + 8 <= data@.len(),
    ensures
        r == be64_val(data@.subrange(start as int, start + 8)),
{
    let r: u64 = (data[start] as u64) << 56 | (data[start + 1] as u64) << 48 | (data[start
        + 2] as u64) << 40 | (data[start + 3] as u64) << 32 | (data[start + 4] as u64) << 24 | (
    data[start + 5] as u64) << 16 | (data[start + 6] as u64) << 8 | (data[start + 7] as u64);
    proof {
        let b = data@.subrange(start as int, start + 8);
        assert(b.len() == 8);
        assert(b[0] == data@[start as int] && b[1] == data@[start as int + 1] && b[2]
            == data@[start as int + 2] && b[3] == data@[start as int + 3] && b[4] == data@[
        start as int + 4] && b[5] == data@[start as int + 5] && b[6] == data@[start as int + 6]
            && b[7] == data@[start as int + 7]);
        let b0 = data@[start as int];
        let b1 = data@[start as int + 1];
        let b2 = data@[start as int + 2];
        let b3 = data@[start as int + 3];
        let b4 = data@[start as int + 4];
        let b5 = data@[start as int + 5];
        let b6 = data@[start as int + 6];
        let b7 = data@[start as int + 7];
        assert((b0 as u64) << 56 | (b1 as u64) << 48 | (b2 as u64) << 40 | (b3 as u64) << 32 | (
        b4 as u64) << 24 | (b5 as u64) << 16 | (b6 as u64) << 8 | (b7 as u64) == ((b0 as int)
            * 0x100000000000000 + (b1 as int) * 0x1000000000000 + (b2 as int) * 0x10000000000 + (
        b3 as int) * 0x100000000 + (b4 as int) * 0x1000000 + (b5 as int) * 0x10000 + (b6 as int)
            * 0x100 + (b7 as int)) as u64) by (bit_vector);
    }
    r
}

/// Unpack a binary wire packet. Succeeds exactly when every length
/// prefix is present and covered by the data; the parsed fields are
/// the wire image's and the nonce is absent. Trailing bytes beyond the
/// ciphertext are ignored.
pub fn unpack_packet(data: &[u8]) -> (r: Result<Packet, PQFSRError>)
    ensures
        match r {
            Ok(p) => wire_ok(data@) && wire_fields_ok(data@, p),
            Err(e) => !wire_ok(data@) && e == PQFSRError::PacketTooShort,
        },
{
    if data.len() < 19 {
        return Err(PQFSRError::PacketTooShort);
    }
    let version = data[0];
    let count = read_be64(data, 1);
    let pn = read_be64(data, 9);

    let kem_len: usize = (data[17] as usize) * 0x100 + (data[18] as usize);
    proof {
        assert(data@.subrange(17, 19) =~= seq![data@[17], data@[18]]);
        assert(wire_klen(data@) == kem_len);
    }
    if data.len() < 21 || data.len() - 21 < kem_len {
        proof {
            assert(!(data@.len() as int >= 21 + wire_klen(data@)));
        }
        return Err(PQFSRError::PacketTooShort);
    }
    let kem_ct = copy_range(data, 19, 19 + kem_len);

    let pub_len: usize = (data[19 + kem_len] as usize) * 0x100 + (data[20 + kem_len] as usize);
    proof {
        assert(data@.subrange(19 + kem_len, 21 + kem_len) =~= seq![
            data@[19 + kem_len],
            data@[20 + kem_len],
        ]);
        assert(wire_plen(data@) == pub_len);
    }
    if data.len() - 21 - kem_len < 20 || data.len() - 41 - kem_len < pub_len {
        proof {
            assert(!(data@.len() as int >= 41 + wire_klen(data@) + wire_plen(data@)));
        }
        return Err(PQFSRError::PacketTooShort);
    }
    let ratchet_pub = copy_range(data, 21 + kem_len, 21 + kem_len + pub_len);
    let semantic_tag = copy_range(data, 21 + kem_len + pub_len, 37 + kem_len + pub_len);

    let ct_off: usize = 37 + kem_len + pub_len;
    let ct_len: usize = (data[ct_off] as usize) * 0x1000000 + (data[ct_off + 1] as usize) * 0x10000
        + (data[ct_off + 2] as usize) * 0x100 + (data[ct_off + 3] as usize);
    proof {
        assert(data@.subrange(ct_off as int, ct_off as int + 4) =~= seq![
            data@[ct_off as int],
            data@[ct_off as int + 1],
            data@[ct_off as int + 2],
            data@[ct_off as int + 3],
        ]);
        let b = data@.subrange(ct_off as int, ct_off as int + 4);
        assert(be32_val(b) == ((b[0] as int) * 0x1000000 + (b[1] as int) * 0x10000 + (b[2] as int)
            * 0x100 + (b[3] as int)) as u32);
        assert(wire_clen(data@) == ct_len);
    }
    if data.len() - 41 - kem_len - pub_len < ct_len {
        proof {
            assert(!(data@.len() as int >= 41 + wire_klen(data@) + wire_plen(data@) + wire_clen(
                data@,
            )));
        }
        return Err(PQFSRError::PacketTooShort);
    }
    let ciphertext = copy_range(data, 41 + kem_len + pub_len, 41 + kem_len + pub_len + ct_len);

    Ok(
        Packet {
            version,
            count,
            pn,
            ratchet_pub,
            kem_ciphertext: kem_ct,
            semantic_tag,
            ciphertext,
            nonce: None,
        },
    )
}

/// Packing then unpacking restores every wire field: the wire image of
/// a well-formed packet parses, and each parsed field equals the
/// packed packet's, the nonce excepted, which never crosses the wire.
pub proof fn lemma_wire_round_trip(p: Packet)
    requires
        packet_wire_wf(p),
    ensures
        wire_ok(pack_spec(p)),
        forall|q: Packet|
            wire_fields_ok(pack_spec(p), q) ==> q.version == p.version && q.count == p.count
                && q.pn == p.pn && q.kem_ciphertext@ == p.kem_ciphertext@ && q.ratchet_pub@
                == p.ratchet_pub@ && q.semantic_tag@ == p.semantic_tag@ && q.ciphertext@
                == p.ciphertext@ && q.nonce is None,
{
    let data = pack_spec(p);
    let k = p.kem_ciphertext@.len() as int;
    let pl = p.ratchet_pub@.len() as int;
    let c = p.ciphertext@.len() as int;
    assert(data.len() == 41 + k + pl + c);
    assert(data.subrange(17, 19) =~= be16_spec(p.kem_ciphertext@.len() as u16));
    lemma_be16_val(p.kem_ciphertext@.len() as u16);
    assert(wire_klen(data) == k);
    assert(data.subrange(19 + k, 21 + k) =~= be16_spec(p.ratchet_pub@.len() as u16));
    lemma_be16_val(p.ratchet_pub@.len() as u16);
    assert(wire_plen(data) == pl);
    assert(data.subrange(37 + k + pl, 41 + k + pl) =~= be32_spec(p.ciphertext@.len() as u32));
    lemma_be32_val(p.ciphertext@.len() as u32);
    assert(wire_clen(data) == c);
    assert(wire_ok(data));
    assert(data[0] == p.version);
    assert(data.subrange(1, 9) =~= be64_spec(p.count));
    lemma_be64_val(p.count);
    assert(be64_val(data.subrange(1, 9)) == p.count);
    assert(data.subrange(9, 17) =~= be64_spec(p.pn));
    lemma_be64_val(p.pn);
    assert(be64_val(data.subrange(9, 17)) == p.pn);
    assert(data.subrange(19, 19 + k) =~= p.kem_ciphertext@);
    assert(data.subrange(21 + k, 21 + k + pl) =~= p.ratchet_pub@);
    assert(data.subrange(21 + k + pl, 37 + k + pl) =~= p.semantic_tag@);
    assert(data.subrange(41 + k + pl, 41 + k + pl + c) =~= p.ciphertext@);
}

/// `be16_val` inverts `be16_spec`.
proof fn lemma_be16_val(n: u16)
    ensures
        be16_val(be16_spec(n)) == n,
{
    assert(((n >> 8) as int) * 0x100 + ((n as u8) as int) == n as int) by (bit_vector);
}

/// `be32_val` inverts `be32_spec`.
proof fn lemma_be32_val(n: u32)
    ensures
        be32_val(be32_spec(n)) == n,
{
    assert((((n >> 24) as u8) as int) * 0x1000000 + (((n >> 16) as u8) as int) * 0x10000 + (((n
        >> 8) as u8) as int) * 0x100 + ((n as u8) as int) == n as int) by (bit_vector);
}

/// `be64_val` inverts `be64_spec`.
proof fn lemma_be64_val(n: u64)
    ensures
        be64_val(be64_spec(n)) == n,
{
    assert((((n >> 56) as u8) as int) * 0x100000000000000 + (((n >> 48) as u8) as int)
        * 0x1000000000000 + (((n >> 40) as u8) as int) * 0x10000000000 + (((n >> 32) as u8) as int)
        * 0x100000000 + (((n >> 24) as u8) as int) * 0x1000000 + (((n >> 16) as u8) as int)
        * 0x10000 + (((n >> 8) as u8) as int) * 0x100 + ((n as u8) as int) == n as int)
        by (bit_vector);
}

/// The lowercase hex digit of a value below 16.
pub open spec fn hex_digit(n: int) -> char {
    if n == 0 {
        '0'
    } else if n == 1 {
        '1'
    } else if n == 2 {
        '2'
    } else if n == 3 {
        '3'
    } else if n == 4 {
        '4'
    } else if n == 5 {
        '5'
    } else if n == 6 {
        '6'
    } else if n == 7 {
        '7'
    } else if n == 8 {
        '8'
    } else if n == 9 {
        '9'
    } else if n == 10 {
        'a'
    } else if n == 11 {
        'b'
    } else if n == 12 {
        'c'
    } else if n == 13 {
        'd'
    } else if n == 14 {
        'e'
    } else {
        'f'
    }
}

/// The value of one hex digit, upper or lower case.
pub open spec fn hex_val(c: char) -> Option<u8> {
    if c == '0' {
        Some(0u8)
    } else if c == '1' {
        Some(1u8)
    } else if c == '2' {
        Some(2u8)
    } else if c == '3' {
        Some(3u8)
    } else if c == '4' {
        Some(4u8)
    } else if c == '5' {
        Some(5u8)
    } else if c == '6' {
        Some(6u8)
    } else if c == '7' {
        Some(7u8)
    } else if c == '8' {
        Some(8u8)
    } else if c == '9' {
        Some(9u8)
    } else if c == 'a' || c == 'A' {
        Some(10u8)
    } else if c == 'b' || c == 'B' {
        Some(11u8)
    } else if c == 'c' || c == 'C' {
        Some(12u8)
    } else if c == 'd' || c == 'D' {
        Some(13u8)
    } else if c == 'e' || c == 'E' {
        Some(14u8)
    } else if c == 'f' || c == 'F' {
        Some(15u8)
    } else {
        None
    }
}

/// The lowercase hex encoding of a byte string: two digits per byte,
/// high nibble first.
pub open spec fn hex_of(b: Seq<u8>) -> Seq<char> {
    Seq::new(
        b.len() * 2,
        |i: int|
            if i % 2 == 0 {
                hex_digit(b[i / 2] as int / 16)
            } else {
                hex_digit(b[i / 2] as int % 16)
            },
    )
}

/// Whether a character string is a well-formed hex encoding: even
/// length, all digits.
pub open spec fn unhex_ok(s: Seq<char>) -> bool {
    s.len() % 2 == 0 && forall|i: int| 0 <= i < s.len() ==> hex_val(#[trigger] s[i]) is Some
}

/// The bytes a hex string decodes to, or `None` when it is malformed.
pub open spec fn unhex_of(s: Seq<char>) -> Option<Seq<u8>> {
    if unhex_ok(s) {
        Some(
            Seq::new(
                s.len() / 2,
                |i: int|
                    ((hex_val(s[2 * i]).unwrap() as int) * 16 + (hex_val(
                        s[2 * i + 1],
                    ).unwrap() as int)) as u8,
            ),
        )
    } else {
        None
    }
}

/// Decoding inverts encoding: the hex image of any byte string is
/// well-formed and decodes to the original bytes.
pub proof fn lemma_unhex_hex(b: Seq<u8>)
    ensures
        unhex_of(hex_of(b)) == Some(b),
{
    let h = hex_of(b);
    assert forall|i: int| 0 <= i < h.len() implies hex_val(#[trigger] h[i]) is Some by {
        let x = b[i / 2] as int;
        assert(0 <= x < 256);
        assert(0 <= x / 16 < 16);
        assert(0 <= x % 16 < 16);
    }
    assert(unhex_ok(h));
    let d = unhex_of(h).unwrap();
    assert forall|i: int| 0 <= i < d.len() implies d[i] == b[i] by {
        let x = b[i] as int;
        assert(h[2 * i] == hex_digit(x / 16));
        assert(h[2 * i + 1] == hex_digit(x % 16));
        assert(0 <= x / 16 < 16);
        assert(0 <= x % 16 < 16);
        assert(hex_val(hex_digit(x / 16)) == Some((x / 16) as u8));
        assert(hex_val(hex_digit(x % 16)) == Some((x % 16) as u8));
        assert(x == (x / 16) * 16 + x % 16);
    }
    assert(d =~= b);
}

/// Relies on hex::encode: two lowercase digits per byte, high nibble
/// first.
#[verifier::external_body]
pub(crate) fn hex_encode(b: &[u8]) -> (r: String)
    ensures
        r@ == hex_of(b@),
{
    hex::encode(b)
}

/// Relies on hex::decode: it accepts exactly even-length strings of
/// hex digits (either case) and returns the decoded bytes.
#[verifier::external_body]
fn hex_decode_raw(s: &str) -> (r: Option<Vec<u8>>)
    ensures
        match r {
            Some(v) => unhex_of(s@) == Some(v@),
            None => unhex_of(s@) is None,
        },
{
    hex::decode(s).ok()
}

/// Decode a hex string; fails with `DeserializationFailed` exactly when
/// it is not a well-formed hex encoding.
pub fn hex_decode(s: &str) -> (r: Result<Vec<u8>, PQFSRError>)
    ensures
        match r {
            Ok(v) => unhex_of(s@) == Some(v@),
            Err(e) => unhex_of(s@) is None && e == PQFSRError::DeserializationFailed,
        },
{
    match hex_decode_raw(s) {
        Some(v) => Ok(v),
        None => Err(PQFSRError::DeserializationFailed),
    }
}

/// A serializable state record: a schema version byte, a protocol
/// version byte and the state body.
pub struct SerializedState {
    pub schema_version: u8,
    pub protocol_version: u8,
    pub data: StateData,
}

/// The state body: every ratchet state field with byte strings
/// hex-encoded, the skipped-key cache as (index, key, nonce) triples,
/// plus the session's hint and role.
pub struct StateData {
    pub root_key: String,
    pub send_chain_key: String,
    pub recv_chain_key: String,
    pub send_label: String,
    pub recv_label: String,
    pub send_count: u64,
    pub recv_count: u64,
    pub previous_send_count: u64,
    pub local_ratchet_private: String,
    pub local_ratchet_public: String,
    pub remote_ratchet_public: Option<String>,
    pub combined_digest: String,
    pub local_digest: String,
    pub remote_digest: Option<String>,
    pub skipped_keys: Vec<(u64, String, String)>,
    pub max_skip: usize,
    pub semantic_hint: String,
    pub is_initiator: bool,
}

/// An optional string as an optional character sequence.
pub open spec fn opt_str_view(o: Option<String>) -> Option<Seq<char>> {
    match o {
        Some(s) => Some(s@),
        None => None,
    }
}

/// How a state record relates to the state it serializes: version
/// bytes 1, every byte field hex-encoded, counters and flags copied,
/// and the cache triple-for-entry.
pub open spec fn state_ser_rel(
    st: RatchetState,
    hint: Seq<u8>,
    is_initiator: bool,
    p: SerializedState,
) -> bool {
    &&& p.schema_version == 1
    &&& p.protocol_version == 1
    &&& p.data.root_key@ == hex_of(st.root_key@)
    &&& p.data.send_chain_key@ == hex_of(st.send_chain_key@)
    &&& p.data.recv_chain_key@ == hex_of(st.recv_chain_key@)
    &&& p.data.send_label@ == hex_of(st.send_label@)
    &&& p.data.recv_label@ == hex_of(st.recv_label@)
    &&& p.data.send_count == st.send_count
    &&& p.data.recv_count == st.recv_count
    &&& p.data.previous_send_count == st.previous_send_count
    &&& p.data.local_ratchet_private@ == hex_of(st.local_ratchet_private@)
    &&& p.data.local_ratchet_public@ == hex_of(st.local_ratchet_public@)
    &&& (match st.remote_ratchet_public {
        Some(v) => opt_str_view(p.data.remote_ratchet_public) == Some(hex_of(v@)),
        None => p.data.remote_ratchet_public is None,
    })
    &&& p.data.combined_digest@ == hex_of(st.combined_digest@)
    &&& p.data.local_digest@ == hex_of(st.local_digest@)
    &&& (match st.remote_digest {
        Some(v) => opt_str_view(p.data.remote_digest) == Some(hex_of(v@)),
        None => p.data.remote_digest is None,
    })
    &&& p.data.skipped_keys@.len() == st.skipped_message_keys@.len()
    &&& (forall|i: int|
        0 <= i < p.data.skipped_keys@.len() ==> (#[trigger] p.data.skipped_keys@[i]).0
            == st.skipped_message_keys@[i].index && p.data.skipped_keys@[i].1@ == hex_of(
            st.skipped_message_keys@[i].key@,
        ) && p.data.skipped_keys@[i].2@ == hex_of(st.skipped_message_keys@[i].nonce@))
    &&& p.data.max_skip == st.max_skip
    &&& p.data.semantic_hint@ == hex_of(hint)
    &&& p.data.is_initiator == is_initiator
}

/// How decoded values relate to a state record: every hex field
/// decodes to the corresponding byte field, counters and flags copied.
pub open spec fn state_de_rel(
    p: SerializedState,
    st: RatchetState,
    hint: Seq<u8>,
    is_initiator: bool,
) -> bool {
    &&& unhex_of(p.data.root_key@) == Some(st.root_key@)
    &&& unhex_of(p.data.send_chain_key@) == Some(st.send_chain_key@)
    &&& unhex_of(p.data.recv_chain_key@) == Some(st.recv_chain_key@)
    &&& unhex_of(p.data.send_label@) == Some(st.send_label@)
    &&& unhex_of(p.data.recv_label@) == Some(st.recv_label@)
    &&& st.send_count == p.data.send_count
    &&& st.recv_count == p.data.recv_count
    &&& st.previous_send_count == p.data.previous_send_count
    &&& unhex_of(p.data.local_ratchet_private@) == Some(st.local_ratchet_private@)
    &&& unhex_of(p.data.local_ratchet_public@) == Some(st.local_ratchet_public@)
    &&& (match p.data.remote_ratchet_public {
        Some(s) => opt_view(st.remote_ratchet_public) matches Some(v) && unhex_of(s@) == Some(v),
        None => st.remote_ratchet_public is None,
    })
    &&& unhex_of(p.data.combined_digest@) == Some(st.combined_digest@)
    &&& unhex_of(p.data.local_digest@) == Some(st.local_digest@)
    &&& (match p.data.remote_digest {
        Some(s) => opt_view(st.remote_digest) matches Some(v) && unhex_of(s@) == Some(v),
        None => st.remote_digest is None,
    })
    &&& st.skipped_message_keys@.len() == p.data.skipped_keys@.len()
    &&& (forall|i: int|
        0 <= i < st.skipped_message_keys@.len() ==> (#[trigger] st.skipped_message_keys@[i]).index
            == p.data.skipped_keys@[i].0 && unhex_of(p.data.skipped_keys@[i].1@) == Some(
            st.skipped_message_keys@[i].key@,
        ) && unhex_of(p.data.skipped_keys@[i].2@) == Some(st.skipped_message_keys@[i].nonce@))
    &&& st.max_skip == p.data.max_skip
    &&& unhex_of(p.data.semantic_hint@) == Some(hint)
    &&& is_initiator == p.data.is_initiator
}

/// Whether every hex field of a state record decodes.
pub open spec fn state_de_ok(p: SerializedState) -> bool {
    &&& unhex_of(p.data.root_key@) is Some
    &&& unhex_of(p.data.send_chain_key@) is Some
    &&& unhex_of(p.data.recv_chain_key@) is Some
    &&& unhex_of(p.data.send_label@) is Some
    &&& unhex_of(p.data.recv_label@) is Some
    &&& unhex_of(p.data.local_ratchet_private@) is Some
    &&& unhex_of(p.data.local_ratchet_public@) is Some
    &&& (match p.data.remote_ratchet_public {
        Some(s) => unhex_of(s@) is Some,
        None => true,
    })
    &&& unhex_of(p.data.combined_digest@) is Some
    &&& unhex_of(p.data.local_digest@) is Some
    &&& (match p.data.remote_digest {
        Some(s) => unhex_of(s@) is Some,
        None => true,
    })
    &&& (forall|i: int|
        0 <= i < p.data.skipped_keys@.len() ==> unhex_of(
            (#[trigger] p.data.skipped_keys@[i]).1@,
        ) is Some && unhex_of(p.data.skipped_keys@[i].2@) is Some)
    &&& unhex_of(p.data.semantic_hint@) is Some
}

/// Serialize the ratchet state, the session hint and the role into a
/// self-contained record with hex-encoded byte fields.
pub fn serialize_state(state: &RatchetState, semantic_hint: &[u8], is_initiator: bool) -> (r:
    SerializedState)
    ensures
        state_ser_rel(*state, semantic_hint@, is_initiator, r),
{
    let mut skipped_keys: Vec<(u64, String, String)> = Vec::new();
    let mut i: usize = 0;
    while i < state.skipped_message_keys.len()
        invariant
            i <= state.skipped_message_keys@.len(),
            skipped_keys@.len() == i,
            forall|j: int|
                0 <= j < i ==> (#[trigger] skipped_keys@[j]).0
                    == state.skipped_message_keys@[j].index && skipped_keys@[j].1@ == hex_of(
                    state.skipped_message_keys@[j].key@,
                ) && skipped_keys@[j].2@ == hex_of(state.skipped_message_keys@[j].nonce@),
        decreases state.skipped_message_keys@.len() - i,
    {
        let e = &state.skipped_message_keys[i];
        let key_hex = hex_encode(e.key.as_slice());
        let nonce_hex = hex_encode(e.nonce.as_slice());
        skipped_keys.push((e.index, key_hex, nonce_hex));
        i = i + 1;
    }
    let remote_ratchet_public: Option<String> = match &state.remote_ratchet_public {
        Some(v) => Some(hex_encode(v.as_slice())),
        None => None,
    };
    let remote_digest: Option<String> = match &state.remote_digest {
        Some(v) => Some(hex_encode(v.as_slice())),
        None => None,
    };
    SerializedState {
        schema_version: 1,
        protocol_version: 1,
        data: StateData {
            root_key: hex_encode(state.root_key.as_slice()),
            send_chain_key: hex_encode(state.send_chain_key.as_slice()),
            recv_chain_key: hex_encode(state.recv_chain_key.as_slice()),
            send_label: hex_encode(state.send_label.as_slice()),
            recv_label: hex_encode(state.recv_label.as_slice()),
            send_count: state.send_count,
            recv_count: state.recv_count,
            previous_send_count: state.previous_send_count,
            local_ratchet_private: hex_encode(state.local_ratchet_private.as_slice()),
            local_ratchet_public: hex_encode(state.local_ratchet_public.as_slice()),
            remote_ratchet_public,
            combined_digest: hex_encode(state.combined_digest.as_slice()),
            local_digest: hex_encode(state.local_digest.as_slice()),
            remote_digest,
            skipped_keys,
            max_skip: state.max_skip,
            semantic_hint: hex_encode(semantic_hint),
            is_initiator,
        },
    }
}

/// Deserialize a state record. Succeeds exactly when every hex field
/// decodes; the returned state, hint and role carry the decoded
/// values.
pub fn deserialize_state(payload: &SerializedState) -> (r: Result<
    (RatchetState, Vec<u8>, bool),
    PQFSRError,
>)
    ensures
        match r {
            Ok(out) => state_de_ok(*payload) && state_de_rel(*payload, out.0, out.1@, out.2),
            Err(e) => !state_de_ok(*payload) && e == PQFSRError::DeserializationFailed,
        },
{
    let mut skipped_message_keys: Vec<SkippedKey> = Vec::new();
    let mut i: usize = 0;
    while i < payload.data.skipped_keys.len()
        invariant
            i <= payload.data.skipped_keys@.len(),
            skipped_message_keys@.len() == i,
            forall|j: int|
                0 <= j < i ==> skipped_message_keys@[j].index == (#[trigger] payload.data.skipped_keys@[j]).0
                    && unhex_of(payload.data.skipped_keys@[j].1@) == Some(
                    skipped_message_keys@[j].key@,
                ) && unhex_of(payload.data.skipped_keys@[j].2@) == Some(
                    skipped_message_keys@[j].nonce@,
                ),
        decreases payload.data.skipped_keys@.len() - i,
    {
        let entry = &payload.data.skipped_keys[i];
        let key = match hex_decode(entry.1.as_str()) {
            Ok(v) => v,
            Err(e) => {
                proof {
                    assert(unhex_of(payload.data.skipped_keys@[i as int].1@) is None);
                }
                return Err(e);
            },
        };
        let nonce = match hex_decode(entry.2.as_str()) {
            Ok(v) => v,
            Err(e) => {
                proof {
                    assert(unhex_of(payload.data.skipped_keys@[i as int].2@) is None);
                }
                return Err(e);
            },
        };
        skipped_message_keys.push(SkippedKey { index: entry.0, key, nonce });
        i = i + 1;
    }
    let data = &payload.data;

    let root_key = match hex_decode(data.root_key.as_str()) {
        Ok(v) => v,
        Err(e) => {
            return Err(e);
        },
    };
    let send_chain_key = match hex_decode(data.send_chain_key.as_str()) {
        Ok(v) => v,
        Err(e) => {
            return Err(e);
        },
    };
    let recv_chain_key = match hex_decode(data.recv_chain_key.as_str()) {
        Ok(v) => v,
        Err(e) => {
            return Err(e);
        },
    };
    let send_label = match hex_decode(data.send_label.as_str()) {
        Ok(v) => v,
        Err(e) => {
            return Err(e);
        },
    };
    let recv_label = match hex_decode(data.recv_label.as_str()) {
        Ok(v) => v,
        Err(e) => {
            return Err(e);
        },
    };
    let local_ratchet_private = match hex_decode(data.local_ratchet_private.as_str()) {
        Ok(v) => v,
        Err(e) => {
            return Err(e);
        },
    };
    let local_ratchet_public = match hex_decode(data.local_ratchet_public.as_str()) {
        Ok(v) => v,
        Err(e) => {
            return Err(e);
        },
    };
    let remote_ratchet_public: Option<Vec<u8>> = match &data.remote_ratchet_public {
        Some(s) => match hex_decode(s.as_str()) {
            Ok(v) => Some(v),
            Err(e) => {
                return Err(e);
            },
        },
        None => None,
    };
    let combined_digest = match hex_decode(data.combined_digest.as_str()) {
        Ok(v) => v,
        Err(e) => {
            return Err(e);
        },
    };
    let local_digest = match hex_decode(data.local_digest.as_str()) {
        Ok(v) => v,
        Err(e) => {
            return Err(e);
        },
    };
    let remote_digest: Option<Vec<u8>> = match &data.remote_digest {
        Some(s) => match hex_decode(s.as_str()) {
            Ok(v) => Some(v),
            Err(e) => {
                return Err(e);
            },
        },
        None => None,
    };
    let semantic_hint = match hex_decode(data.semantic_hint.as_str()) {
        Ok(v) => v,
        Err(e) => {
            return Err(e);
        },
    };

    let state = RatchetState {
        root_key,
        send_chain_key,
        recv_chain_key,
        send_label,
        recv_label,
        send_count: data.send_count,
        recv_count: data.recv_count,
        previous_send_count: data.previous_send_count,
        local_ratchet_private,
        local_ratchet_public,
        remote_ratchet_public,
        combined_digest,
        local_digest,
        remote_digest,
        skipped_message_keys,
        max_skip: data.max_skip,
    };
    Ok((state, semantic_hint, data.is_initiator))
}

/// Deserializing a serialized state restores every field: the record
/// of any state decodes, and the decoded state carries the same values
/// in every field, along with the same hint and role.
pub proof fn lemma_state_round_trip(
    st: RatchetState,
    hint: Seq<u8>,
    init: bool,
    p: SerializedState,
    st2: RatchetState,
    hint2: Seq<u8>,
    init2: bool,
)
    requires
        state_ser_rel(st, hint, init, p),
        state_de_rel(p, st2, hint2, init2),
    ensures
        st2.views_eq(st),
        hint2 == hint,
        init2 == init,
{
    lemma_unhex_hex(st.root_key@);
    lemma_unhex_hex(st.send_chain_key@);
    lemma_unhex_hex(st.recv_chain_key@);
    lemma_unhex_hex(st.send_label@);
    lemma_unhex_hex(st.recv_label@);
    lemma_unhex_hex(st.local_ratchet_private@);
    lemma_unhex_hex(st.local_ratchet_public@);
    lemma_unhex_hex(st.combined_digest@);
    lemma_unhex_hex(st.local_digest@);
    lemma_unhex_hex(hint);
    match st.remote_ratchet_public {
        Some(v) => {
            lemma_unhex_hex(v@);
        },
        None => {},
    }
    match st.remote_digest {
        Some(v) => {
            lemma_unhex_hex(v@);
        },
        None => {},
    }
    assert forall|i: int| 0 <= i < cache_view(st2.skipped_message_keys@).len() implies cache_view(
        st2.skipped_message_keys@,
    )[i] == cache_view(st.skipped_message_keys@)[i] by {
        lemma_unhex_hex(st.skipped_message_keys@[i].key@);
        lemma_unhex_hex(st.skipped_message_keys@[i].nonce@);
        assert(cache_view(st2.skipped_message_keys@)[i] == (
            st2.skipped_message_keys@[i].index,
            st2.skipped_message_keys@[i].key@,
            st2.skipped_message_keys@[i].nonce@,
        ));
        assert(cache_view(st.skipped_message_keys@)[i] == (
            st.skipped_message_keys@[i].index,
            st.skipped_message_keys@[i].key@,
            st.skipped_message_keys@[i].nonce@,
        ));
    }
    assert(cache_view(st2.skipped_message_keys@) =~= cache_view(st.skipped_message_keys@));
}

/// A serialized state always deserializes: every field of the record
/// of any state is a well-formed hex encoding.
pub proof fn lemma_serialized_state_decodes(
    st: RatchetState,
    hint: Seq<u8>,
    init: bool,
    p: SerializedState,
)
    requires
        state_ser_rel(st, hint, init, p),
    ensures
        state_de_ok(p),
{
    lemma_unhex_hex(st.root_key@);
    lemma_unhex_hex(st.send_chain_key@);
    lemma_unhex_hex(st.recv_chain_key@);
    lemma_unhex_hex(st.send_label@);
    lemma_unhex_hex(st.recv_label@);
    lemma_unhex_hex(st.local_ratchet_private@);
    lemma_unhex_hex(st.local_ratchet_public@);
    lemma_unhex_hex(st.combined_digest@);
    lemma_unhex_hex(st.local_digest@);
    lemma_unhex_hex(hint);
    match st.remote_ratchet_public {
        Some(v) => {
            lemma_unhex_hex(v@);
        },
        None => {},
    }
    match st.remote_digest {
        Some(v) => {
            lemma_unhex_hex(v@);
        },
        None => {},
    }
    assert forall|i: int| 0 <= i < p.data.skipped_keys@.len() implies unhex_of(
        (#[trigger] p.data.skipped_keys@[i]).1@,
    ) is Some && unhex_of(p.data.skipped_keys@[i].2@) is Some by {
        lemma_unhex_hex(st.skipped_message_keys@[i].key@);
        lemma_unhex_hex(st.skipped_message_keys@[i].nonce@);
    }
}

/// The binary header introducing one item of the state blob: the major
/// type in the high three bits and the length or value after it, in
/// the shortest form.
pub open spec fn cbor_head_spec(major: u8, n: u64) -> Seq<u8>
    recommends
        major < 8,
{
    if n < 24 {
        seq![((major as int) * 32 + (n as int)) as u8]
    } else if n <= 0xFF {
        seq![((major as int) * 32 + 24) as u8, n as u8]
    } else if n <= 0xFFFF {
        seq![((major as int) * 32 + 25) as u8] + be16_spec(n as u16)
    } else if n <= 0xFFFF_FFFF {
        seq![((major as int) * 32 + 26) as u8] + be32_spec(n as u32)
    } else {
        seq![((major as int) * 32 + 27) as u8] + be64_spec(n)
    }
}

/// An unsigned integer item of the state blob.
pub open spec fn cbor_uint_spec(n: u64) -> Seq<u8> {
    cbor_head_spec(0, n)
}

/// A byte-string item of the state blob.
pub open spec fn cbor_bytes_spec(b: Seq<u8>) -> Seq<u8> {
    cbor_head_spec(2, b.len() as u64) + b
}

/// An optional byte-string item: null (0xf6) when absent.
pub open spec fn cbor_opt_bytes_spec(o: Option<Seq<u8>>) -> Seq<u8> {
    match o {
        Some(b) => cbor_bytes_spec(b),
        None => seq![0xf6u8],
    }
}

/// A boolean item: 0xf5 for true, 0xf4 for false.
pub open spec fn cbor_bool_spec(x: bool) -> Seq<u8> {
    if x {
        seq![0xf5u8]
    } else {
        seq![0xf4u8]
    }
}

/// One skipped-key cache entry as a three-item array.
pub open spec fn cbor_entry_spec(e: (u64, Seq<u8>, Seq<u8>)) -> Seq<u8> {
    cbor_head_spec(4, 3) + cbor_uint_spec(e.0) + cbor_bytes_spec(e.1) + cbor_bytes_spec(e.2)
}

/// The items of the skipped-key array, in order.
pub open spec fn cbor_items_spec(s: Seq<(u64, Seq<u8>, Seq<u8>)>) -> Seq<u8>
    decreases s.len(),
{
    if s.len() == 0 {
        Seq::empty()
    } else {
        cbor_entry_spec(s[0]) + cbor_items_spec(s.skip(1))
    }
}

/// Appending one entry appends its encoding.
pub proof fn lemma_cbor_items_snoc(s: Seq<(u64, Seq<u8>, Seq<u8>)>, e: (u64, Seq<u8>, Seq<u8>))
    ensures
        cbor_items_spec(s.push(e)) == cbor_items_spec(s) + cbor_entry_spec(e),
    decreases s.len(),
{
    if s.len() == 0 {
        assert(s.push(e)[0] == e);
        assert(s.push(e).skip(1) =~= Seq::<(u64, Seq<u8>, Seq<u8>)>::empty());
        assert(cbor_items_spec(s.push(e).skip(1)) == Seq::<u8>::empty());
        assert(cbor_items_spec(s.push(e)) == cbor_entry_spec(e) + Seq::<u8>::empty());
        assert(cbor_items_spec(s) == Seq::<u8>::empty());
        assert(cbor_items_spec(s.push(e)) =~= cbor_items_spec(s) + cbor_entry_spec(e));
    } else {
        assert(s.push(e).skip(1) =~= s.skip(1).push(e));
        lemma_cbor_items_snoc(s.skip(1), e);
        assert(s.push(e)[0] == s[0]);
        assert(cbor_items_spec(s.push(e)) == cbor_entry_spec(s[0]) + cbor_items_spec(
            s.skip(1).push(e),
        ));
        assert(cbor_items_spec(s) == cbor_entry_spec(s[0]) + cbor_items_spec(s.skip(1)));
        assert(cbor_items_spec(s.push(e)) == cbor_entry_spec(s[0]) + (cbor_items_spec(s.skip(1))
            + cbor_entry_spec(e)));
        assert(cbor_items_spec(s.push(e)) =~= cbor_items_spec(s) + cbor_entry_spec(e));
    }
}

/// The complete state blob: a 20-item array holding the two version
/// bytes, every ratchet state field, the skipped-key cache, the cache
/// bound, the session hint and the role.
pub open spec fn state_blob_spec(st: RatchetState, hint: Seq<u8>, init: bool) -> Seq<u8> {
    cbor_head_spec(4, 20) + cbor_uint_spec(1) + cbor_uint_spec(1) + cbor_bytes_spec(st.root_key@)
        + cbor_bytes_spec(st.send_chain_key@) + cbor_bytes_spec(st.recv_chain_key@)
        + cbor_bytes_spec(st.send_label@) + cbor_bytes_spec(st.recv_label@) + cbor_uint_spec(
        st.send_count,
    ) + cbor_uint_spec(st.recv_count) + cbor_uint_spec(st.previous_send_count) + cbor_bytes_spec(
        st.local_ratchet_private@,
    ) + cbor_bytes_spec(st.local_ratchet_public@) + cbor_opt_bytes_spec(
        opt_view(st.remote_ratchet_public),
    ) + cbor_bytes_spec(st.combined_digest@) + cbor_bytes_spec(st.local_digest@)
        + cbor_opt_bytes_spec(opt_view(st.remote_digest)) + cbor_head_spec(
        4,
        st.skipped_message_keys@.len() as u64,
    ) + cbor_items_spec(cache_view(st.skipped_message_keys@)) + cbor_uint_spec(st.max_skip as u64)
        + cbor_bytes_spec(hint) + cbor_bool_spec(init)
}

/// Append one item header to the buffer.
fn enc_head(out: &mut Vec<u8>, major: u8, n: u64)
    requires
        major < 8,
    ensures
        final(out)@ == old(out)@ + cbor_head_spec(major, n),
{
    let ghost before = out@;
    if n < 24 {
        out.push(major * 32 + (n as u8));
        proof {
            assert(out@ =~= before + cbor_head_spec(major, n));
        }
    } else if n <= 0xFF {
        out.push(major * 32 + 24);
        out.push(n as u8);
        proof {
            assert(out@ =~= before + cbor_head_spec(major, n));
        }
    } else if n <= 0xFFFF {
        out.push(major * 32 + 25);
        let b = be16(n as u16);
        out.extend_from_slice(b.as_slice());
        proof {
            assert(out@ =~= before + cbor_head_spec(major, n));
        }
    } else if n <= 0xFFFF_FFFF {
        out.push(major * 32 + 26);
        let b = crate::session::be32(n as u32);
        out.extend_from_slice(b.as_slice());
        proof {
            assert(out@ =~= before + cbor_head_spec(major, n));
        }
    } else {
        out.push(major * 32 + 27);
        let b = be64(n);
        out.extend_from_slice(b.as_slice());
        proof {
            assert(out@ =~= before + cbor_head_spec(major, n));
        }
    }
}

/// Append an unsigned integer item.
fn enc_uint(out: &mut Vec<u8>, n: u64)
    ensures
        final(out)@ == old(out)@ + cbor_uint_spec(n),
{
    enc_head(out, 0, n);
}

/// Append a byte-string item.
fn enc_bytes(out: &mut Vec<u8>, b: &[u8])
    ensures
        final(out)@ == old(out)@ + cbor_bytes_spec(b@),
{
    let ghost before = out@;
    enc_head(out, 2, b.len() as u64);
    out.extend_from_slice(b);
    proof {
        assert(out@ =~= before + cbor_bytes_spec(b@));
    }
}

/// Append an optional byte-string item.
fn enc_opt_bytes(out: &mut Vec<u8>, b: &Option<Vec<u8>>)
    ensures
        final(out)@ == old(out)@ + cbor_opt_bytes_spec(opt_view(*b)),
{
    let ghost before = out@;
    match b {
        Some(v) => {
            enc_bytes(out, v.as_slice());
        },
        None => {
            out.push(0xf6u8);
            proof {
                assert(out@ =~= before + cbor_opt_bytes_spec(opt_view(*b)));
            }
        },
    }
}

/// Serialize the state, hint and role into the self-describing binary
/// state blob.
#[verifier::rlimit(100)]
#[verifier::spinoff_prover]
pub fn serialize_state_cbor(state: &RatchetState, semantic_hint: &[u8], is_initiator: bool) -> (r:
    Vec<u8>)
    ensures
        r@ == state_blob_spec(*state, semantic_hint@, is_initiator),
        r@ == state_blob_suffix_form(*state, semantic_hint@, is_initiator),
{
    let mut out: Vec<u8> = Vec::new();
    enc_head(&mut out, 4, 20);
    enc_uint(&mut out, 1);
    enc_uint(&mut out, 1);
    enc_bytes(&mut out, state.root_key.as_slice());
    enc_bytes(&mut out, state.send_chain_key.as_slice());
    enc_bytes(&mut out, state.recv_chain_key.as_slice());
    enc_bytes(&mut out, state.send_label.as_slice());
    enc_bytes(&mut out, state.recv_label.as_slice());
    enc_uint(&mut out, state.send_count);
    enc_uint(&mut out, state.recv_count);
    enc_uint(&mut out, state.previous_send_count);
    enc_bytes(&mut out, state.local_ratchet_private.as_slice());
    enc_bytes(&mut out, state.local_ratchet_public.as_slice());
    enc_opt_bytes(&mut out, &state.remote_ratchet_public);
    enc_bytes(&mut out, state.combined_digest.as_slice());
    enc_bytes(&mut out, state.local_digest.as_slice());
    enc_opt_bytes(&mut out, &state.remote_digest);
    enc_head(&mut out, 4, state.skipped_message_keys.len() as u64);
    let ghost head_bytes = out@;
    let mut i: usize = 0;
    proof {
        assert(state.skipped_message_keys@.subrange(0, 0) =~= Seq::<SkippedKey>::empty());
        assert(cache_view(state.skipped_message_keys@.subrange(0, 0)) =~= Seq::<(
            u64,
            Seq<u8>,
            Seq<u8>,
        )>::empty());
        assert(out@ =~= head_bytes + cbor_items_spec(
            cache_view(state.skipped_message_keys@.subrange(0, 0)),
        ));
    }
    while i < state.skipped_message_keys.len()
        invariant
            i <= state.skipped_message_keys@.len(),
            out@ == head_bytes + cbor_items_spec(
                cache_view(state.skipped_message_keys@.subrange(0, i as int)),
            ),
        decreases state.skipped_message_keys@.len() - i,
    {
        let e = &state.skipped_message_keys[i];
        let ghost before = out@;
        enc_head(&mut out, 4, 3);
        enc_uint(&mut out, e.index);
        enc_bytes(&mut out, e.key.as_slice());
        enc_bytes(&mut out, e.nonce.as_slice());
        proof {
            let sub_i = cache_view(state.skipped_message_keys@.subrange(0, i as int));
            let sub_i1 = cache_view(state.skipped_message_keys@.subrange(0, i + 1));
            let ev = (e.index, e.key@, e.nonce@);
            assert(out@ =~= before + cbor_entry_spec(ev));
            assert(sub_i1 =~= sub_i.push(ev));
            lemma_cbor_items_snoc(sub_i, ev);
            assert(out@ =~= head_bytes + cbor_items_spec(sub_i1));
        }
        i = i + 1;
    }
    proof {
        assert(state.skipped_message_keys@.subrange(
            0,
            state.skipped_message_keys@.len() as int,
        ) =~= state.skipped_message_keys@);
    }
    enc_uint(&mut out, state.max_skip as u64);
    enc_bytes(&mut out, semantic_hint);
    out.push(if is_initiator {
        0xf5u8
    } else {
        0xf4u8
    });
    proof {
        assert(out@ =~= state_blob_spec(*state, semantic_hint@, is_initiator));
        lemma_suffix_is_blob(*state, semantic_hint@, is_initiator);
    }
    out
}

/// An item header of the given major type and value sits at `pos`.
pub open spec fn head_at(data: Seq<u8>, pos: int, major: u8, v: u64) -> bool {
    &&& 0 <= pos
    &&& pos + cbor_head_spec(major, v).len() <= data.len()
    &&& data.subrange(pos, pos + cbor_head_spec(major, v).len() as int) == cbor_head_spec(major, v)
}

/// What a header at `pos` forces on the raw bytes: its first byte names
/// the major type and the form, the form fixes the header length, and
/// the value is read back from the following bytes, in its shortest
/// form.
proof fn lemma_head_at_inversion(data: Seq<u8>, pos: int, major: u8, v: u64)
    requires
        major < 8,
        head_at(data, pos, major, v),
    ensures
        pos < data.len(),
        data[pos] / 32 == major,
        data[pos] % 32 < 28,
        data[pos] % 32 < 24 ==> v == data[pos] % 32 && cbor_head_spec(major, v).len() == 1,
        data[pos] % 32 == 24 ==> pos + 2 <= data.len() && v == data[pos + 1] && v >= 24
            && cbor_head_spec(major, v).len() == 2,
        data[pos] % 32 == 25 ==> pos + 3 <= data.len() && v == be16_val(
            data.subrange(pos + 1, pos + 3),
        ) && v > 0xFF && cbor_head_spec(major, v).len() == 3,
        data[pos] % 32 == 26 ==> pos + 5 <= data.len() && v == be32_val(
            data.subrange(pos + 1, pos + 5),
        ) && v > 0xFFFF && cbor_head_spec(major, v).len() == 5,
        data[pos] % 32 == 27 ==> pos + 9 <= data.len() && v == be64_val(
            data.subrange(pos + 1, pos + 9),
        ) && v > 0xFFFF_FFFF && cbor_head_spec(major, v).len() == 9,
{
    let h = cbor_head_spec(major, v);
    assert(data.subrange(pos, pos + h.len() as int) == h);
    assert(h[0] == data[pos]);
    if v < 24 {
        assert(data[pos] == ((major as int) * 32 + (v as int)) as u8);
        assert(data[pos] % 32 == v && data[pos] / 32 == major);
    } else if v <= 0xFF {
        assert(data[pos] == ((major as int) * 32 + 24) as u8);
        assert(data[pos] % 32 == 24 && data[pos] / 32 == major);
        assert(h[1] == data[pos + 1]);
        assert(h[1] == v as u8);
        assert(v == data[pos + 1]);
    } else if v <= 0xFFFF {
        assert(data[pos] == ((major as int) * 32 + 25) as u8);
        assert(data[pos] % 32 == 25 && data[pos] / 32 == major);
        assert(h.len() == 3);
        assert forall|i: int| 0 <= i < 3 implies data[pos + i] == h[i] by {
            assert(data.subrange(pos, pos + h.len() as int)[i] == data[pos + i]);
        }
        assert(h[1] == be16_spec(v as u16)[0] && h[2] == be16_spec(v as u16)[1]);
        assert(data.subrange(pos + 1, pos + 3) =~= be16_spec(v as u16));
        lemma_be16_val(v as u16);
        assert(v == be16_val(data.subrange(pos + 1, pos + 3)));
    } else if v <= 0xFFFF_FFFF {
        assert(data[pos] == ((major as int) * 32 + 26) as u8);
        assert(data[pos] % 32 == 26 && data[pos] / 32 == major);
        assert(h.len() == 5);
        assert forall|i: int| 0 <= i < 5 implies data[pos + i] == h[i] by {
            assert(data.subrange(pos, pos + h.len() as int)[i] == data[pos + i]);
        }
        assert(h[1] == be32_spec(v as u32)[0] && h[2] == be32_spec(v as u32)[1] && h[3]
            == be32_spec(v as u32)[2] && h[4] == be32_spec(v as u32)[3]);
        assert(data.subrange(pos + 1, pos + 5) =~= be32_spec(v as u32));
        lemma_be32_val(v as u32);
        assert(v == be32_val(data.subrange(pos + 1, pos + 5)));
    } else {
        assert(data[pos] == ((major as int) * 32 + 27) as u8);
        assert(data[pos] % 32 == 27 && data[pos] / 32 == major);
        assert(h.len() == 9);
        assert forall|i: int| 0 <= i < 9 implies data[pos + i] == h[i] by {
            assert(data.subrange(pos, pos + h.len() as int)[i] == data[pos + i]);
        }
        assert forall|i: int| 0 <= i < 8 implies h[1 + i] == be64_spec(v)[i] by {}
        assert(data.subrange(pos + 1, pos + 9) =~= be64_spec(v));
        lemma_be64_val(v);
        assert(v == be64_val(data.subrange(pos + 1, pos + 9)));
    }
}

/// Two headers of the same major type at the same position carry the
/// same value and length: the first byte fixes the form, the form fixes
/// the following bytes.
proof fn lemma_head_at_unique(data: Seq<u8>, pos: int, major: u8, v1: u64, v2: u64)
    requires
        major < 8,
        head_at(data, pos, major, v1),
        head_at(data, pos, major, v2),
    ensures
        v1 == v2,
        cbor_head_spec(major, v1).len() == cbor_head_spec(major, v2).len(),
{
    lemma_head_at_inversion(data, pos, major, v1);
    lemma_head_at_inversion(data, pos, major, v2);
}

/// A byte-string item with this payload sits at `pos`.
pub open spec fn bytes_at(data: Seq<u8>, pos: int, b: Seq<u8>) -> bool {
    &&& 0 <= pos
    &&& pos + cbor_bytes_spec(b).len() <= data.len()
    &&& data.subrange(pos, pos + cbor_bytes_spec(b).len() as int) == cbor_bytes_spec(b)
}

/// An optional byte-string item with this content sits at `pos`.
pub open spec fn opt_bytes_at(data: Seq<u8>, pos: int, o: Option<Seq<u8>>) -> bool {
    &&& 0 <= pos
    &&& pos + cbor_opt_bytes_spec(o).len() <= data.len()
    &&& data.subrange(pos, pos + cbor_opt_bytes_spec(o).len() as int) == cbor_opt_bytes_spec(o)
}

/// A boolean item with this value sits at `pos`.
pub open spec fn bool_at(data: Seq<u8>, pos: int, x: bool) -> bool {
    &&& 0 <= pos < data.len()
    &&& data.subrange(pos, pos + 1) == cbor_bool_spec(x)
}

/// A byte-string item at `pos` opens with its length header.
proof fn lemma_bytes_at_head(data: Seq<u8>, pos: int, b: Seq<u8>)
    requires
        bytes_at(data, pos, b),
    ensures
        head_at(data, pos, 2, b.len() as u64),
{
    let h = cbor_head_spec(2, b.len() as u64);
    let whole = cbor_bytes_spec(b);
    assert(whole == h + b);
    assert forall|i: int| 0 <= i < h.len() implies data[pos + i] == h[i] by {
        assert(data.subrange(pos, pos + whole.len() as int)[i] == data[pos + i]);
        assert(whole[i] == h[i]);
    }
    assert(data.subrange(pos, pos + h.len() as int) =~= h);
}

/// The middle of the state blob: the two version integers and every
/// state field, flat.
pub open spec fn state_fields_concat(st: RatchetState) -> Seq<u8> {
    cbor_uint_spec(1) + cbor_uint_spec(1) + cbor_bytes_spec(st.root_key@) + cbor_bytes_spec(
        st.send_chain_key@,
    ) + cbor_bytes_spec(st.recv_chain_key@) + cbor_bytes_spec(st.send_label@) + cbor_bytes_spec(
        st.recv_label@,
    ) + cbor_uint_spec(st.send_count) + cbor_uint_spec(st.recv_count) + cbor_uint_spec(
        st.previous_send_count,
    ) + cbor_bytes_spec(st.local_ratchet_private@) + cbor_bytes_spec(st.local_ratchet_public@)
        + cbor_opt_bytes_spec(opt_view(st.remote_ratchet_public)) + cbor_bytes_spec(
        st.combined_digest@,
    ) + cbor_bytes_spec(st.local_digest@) + cbor_opt_bytes_spec(opt_view(st.remote_digest))
}

/// The middle of the state blob, nested from the back onto a given
/// remainder.
pub open spec fn state_fields_suffix(st: RatchetState, rest: Seq<u8>) -> Seq<u8> {
    let q16 = cbor_opt_bytes_spec(opt_view(st.remote_digest)) + rest;
    let q15 = cbor_bytes_spec(st.local_digest@) + q16;
    let q14 = cbor_bytes_spec(st.combined_digest@) + q15;
    let q13 = cbor_opt_bytes_spec(opt_view(st.remote_ratchet_public)) + q14;
    let q12 = cbor_bytes_spec(st.local_ratchet_public@) + q13;
    let q11 = cbor_bytes_spec(st.local_ratchet_private@) + q12;
    let q10 = cbor_uint_spec(st.previous_send_count) + q11;
    let q9 = cbor_uint_spec(st.recv_count) + q10;
    let q8 = cbor_uint_spec(st.send_count) + q9;
    let q7 = cbor_bytes_spec(st.recv_label@) + q8;
    let q6 = cbor_bytes_spec(st.send_label@) + q7;
    let q5 = cbor_bytes_spec(st.recv_chain_key@) + q6;
    let q4 = cbor_bytes_spec(st.send_chain_key@) + q5;
    let q3 = cbor_bytes_spec(st.root_key@) + q4;
    let q2 = cbor_uint_spec(1) + q3;
    cbor_uint_spec(1) + q2
}

/// The state blob grouped around the field block, as the reader
/// reassembles it.
pub open spec fn state_blob_grouped(st: RatchetState, h: Seq<u8>, b: bool) -> Seq<u8> {
    cbor_head_spec(4, 20) + state_fields_concat(st) + cbor_head_spec(
        4,
        st.skipped_message_keys@.len() as u64,
    ) + cbor_items_spec(cache_view(st.skipped_message_keys@)) + cbor_uint_spec(st.max_skip as u64)
        + cbor_bytes_spec(h) + cbor_bool_spec(b)
}

/// The flat blob and the field-grouped blob are the same byte string.
#[verifier::rlimit(100)]
#[verifier::spinoff_prover]
proof fn lemma_blob_regroup(st: RatchetState, h: Seq<u8>, b: bool)
    ensures
        state_blob_spec(st, h, b) == state_blob_grouped(st, h, b),
{
    assert(state_blob_spec(st, h, b) =~= state_blob_grouped(st, h, b));
}

/// Every cache entry encodes to at least one byte, so the item block is
/// at least as long as the cache.
proof fn lemma_items_len(s: Seq<(u64, Seq<u8>, Seq<u8>)>)
    ensures
        cbor_items_spec(s).len() >= s.len(),
    decreases s.len(),
{
    if s.len() > 0 {
        lemma_items_len(s.skip(1));
        assert(cbor_entry_spec(s[0]).len() >= 1);
    }
}

/// The regrouped state blob: the same pieces as the flat
/// concatenation, nested from the back, as a front-to-back reader
/// peels them off.
pub open spec fn state_blob_suffix_form(st: RatchetState, h: Seq<u8>, b: bool) -> Seq<u8> {
    let q21 = cbor_bool_spec(b);
    let q20 = cbor_bytes_spec(h) + q21;
    let q19 = cbor_uint_spec(st.max_skip as u64) + q20;
    let q18 = cbor_items_spec(cache_view(st.skipped_message_keys@)) + q19;
    let q17 = cbor_head_spec(4, st.skipped_message_keys@.len() as u64) + q18;
    let q16 = cbor_opt_bytes_spec(opt_view(st.remote_digest)) + q17;
    let q15 = cbor_bytes_spec(st.local_digest@) + q16;
    let q14 = cbor_bytes_spec(st.combined_digest@) + q15;
    let q13 = cbor_opt_bytes_spec(opt_view(st.remote_ratchet_public)) + q14;
    let q12 = cbor_bytes_spec(st.local_ratchet_public@) + q13;
    let q11 = cbor_bytes_spec(st.local_ratchet_private@) + q12;
    let q10 = cbor_uint_spec(st.previous_send_count) + q11;
    let q9 = cbor_uint_spec(st.recv_count) + q10;
    let q8 = cbor_uint_spec(st.send_count) + q9;
    let q7 = cbor_bytes_spec(st.recv_label@) + q8;
    let q6 = cbor_bytes_spec(st.send_label@) + q7;
    let q5 = cbor_bytes_spec(st.recv_chain_key@) + q6;
    let q4 = cbor_bytes_spec(st.send_chain_key@) + q5;
    let q3 = cbor_bytes_spec(st.root_key@) + q4;
    let q2 = cbor_uint_spec(1) + q3;
    let q1 = cbor_uint_spec(1) + q2;
    cbor_head_spec(4, 20) + q1
}

/// A right-nested concatenation of seven byte strings, flattened.
proof fn lemma_flatten7(
    a1: Seq<u8>,
    a2: Seq<u8>,
    a3: Seq<u8>,
    a4: Seq<u8>,
    a5: Seq<u8>,
    a6: Seq<u8>,
    a7: Seq<u8>,
)
    ensures
        a1 + (a2 + (a3 + (a4 + (a5 + (a6 + a7))))) == a1 + a2 + a3 + a4 + a5 + a6 + a7,
{
    assert(a1 + (a2 + (a3 + (a4 + (a5 + (a6 + a7))))) =~= a1 + a2 + a3 + a4 + a5 + a6 + a7);
}

/// A right-nested concatenation of nine byte strings, flattened.
proof fn lemma_flatten9(
    a1: Seq<u8>,
    a2: Seq<u8>,
    a3: Seq<u8>,
    a4: Seq<u8>,
    a5: Seq<u8>,
    a6: Seq<u8>,
    a7: Seq<u8>,
    a8: Seq<u8>,
    a9: Seq<u8>,
)
    ensures
        a1 + (a2 + (a3 + (a4 + (a5 + (a6 + (a7 + (a8 + a9))))))) == a1 + a2 + a3 + a4 + a5 + a6
            + a7 + a8 + a9,
{
    assert(a1 + (a2 + (a3 + (a4 + (a5 + (a6 + (a7 + (a8 + a9))))))) =~= a1 + a2 + a3 + a4 + a5
        + a6 + a7 + a8 + a9);
}

/// The nested field block flattens onto its remainder.
#[verifier::rlimit(100)]
#[verifier::spinoff_prover]
proof fn lemma_fields_suffix_concat(st: RatchetState, rest: Seq<u8>)
    ensures
        state_fields_suffix(st, rest) == state_fields_concat(st) + rest,
{
    let p1 = cbor_uint_spec(1);
    let p2 = cbor_uint_spec(1);
    let p3 = cbor_bytes_spec(st.root_key@);
    let p4 = cbor_bytes_spec(st.send_chain_key@);
    let p5 = cbor_bytes_spec(st.recv_chain_key@);
    let p6 = cbor_bytes_spec(st.send_label@);
    let p7 = cbor_bytes_spec(st.recv_label@);
    let p8 = cbor_uint_spec(st.send_count);
    let p9 = cbor_uint_spec(st.recv_count);
    let p10 = cbor_uint_spec(st.previous_send_count);
    let p11 = cbor_bytes_spec(st.local_ratchet_private@);
    let p12 = cbor_bytes_spec(st.local_ratchet_public@);
    let p13 = cbor_opt_bytes_spec(opt_view(st.remote_ratchet_public));
    let p14 = cbor_bytes_spec(st.combined_digest@);
    let p15 = cbor_bytes_spec(st.local_digest@);
    let p16 = cbor_opt_bytes_spec(opt_view(st.remote_digest));
    let inner = p9 + (p10 + (p11 + (p12 + (p13 + (p14 + (p15 + (p16 + rest)))))));
    lemma_flatten9(p9, p10, p11, p12, p13, p14, p15, p16, rest);
    assert(inner == p9 + p10 + p11 + p12 + p13 + p14 + p15 + p16 + rest);
    lemma_flatten9(p1, p2, p3, p4, p5, p6, p7, p8, inner);
    assert(state_fields_suffix(st, rest) == p1 + (p2 + (p3 + (p4 + (p5 + (p6 + (p7 + (p8
        + inner))))))));
    assert(state_fields_suffix(st, rest) == p1 + p2 + p3 + p4 + p5 + p6 + p7 + p8 + inner);
    assert(p1 + p2 + p3 + p4 + p5 + p6 + p7 + p8 + (p9 + p10 + p11 + p12 + p13 + p14 + p15 + p16
        + rest) =~= state_fields_concat(st) + rest);
}

/// The regrouped state blob is the state blob.
#[verifier::rlimit(100)]
#[verifier::spinoff_prover]
proof fn lemma_suffix_is_blob(st: RatchetState, h: Seq<u8>, b: bool)
    ensures
        state_blob_suffix_form(st, h, b) == state_blob_spec(st, h, b),
{
    let hd = cbor_head_spec(4, 20);
    let fc = state_fields_concat(st);
    let sh = cbor_head_spec(4, st.skipped_message_keys@.len() as u64);
    let it = cbor_items_spec(cache_view(st.skipped_message_keys@));
    let ut = cbor_uint_spec(st.max_skip as u64);
    let hb = cbor_bytes_spec(h);
    let bl = cbor_bool_spec(b);
    let t = sh + (it + (ut + (hb + bl)));
    lemma_fields_suffix_concat(st, t);
    assert(state_blob_suffix_form(st, h, b) == hd + (fc + t));
    lemma_flatten7(hd, fc, sh, it, ut, hb, bl);
    assert(hd + (fc + (sh + (it + (ut + (hb + bl))))) == hd + fc + sh + it + ut + hb + bl);
    assert(state_blob_suffix_form(st, h, b) == hd + fc + sh + it + ut + hb + bl);
    assert(state_blob_grouped(st, h, b) == hd + fc + sh + it + ut + hb + bl);
    lemma_blob_regroup(st, h, b);
}

/// Peeling the leading piece off the unread remainder: when the data
/// splits at `pos` into a piece followed by `rest`, the piece sits at
/// `pos` and the split advances past it.
proof fn lemma_step(data: Seq<u8>, pos: int, piece: Seq<u8>, rest: Seq<u8>)
    requires
        0 <= pos <= data.len(),
        data == data.subrange(0, pos) + (piece + rest),
    ensures
        pos + piece.len() <= data.len(),
        data.subrange(pos, pos + piece.len() as int) == piece,
        data == data.subrange(0, pos + piece.len() as int) + rest,
{
    assert(data.len() == pos + piece.len() + rest.len());
    assert(data.subrange(pos, pos + piece.len() as int) =~= piece);
    assert(data =~= data.subrange(0, pos + piece.len() as int) + rest);
}

/// Extending a known prefix by a known segment.
proof fn lemma_prefix_extend(data: Seq<u8>, a: int, b: int, acc: Seq<u8>, piece: Seq<u8>)
    requires
        0 <= a <= b <= data.len(),
        data.subrange(0, a) == acc,
        data.subrange(a, b) == piece,
    ensures
        data.subrange(0, b) == acc + piece,
{
    assert(data.subrange(0, b) =~= acc + piece);
}

/// Parse one item header of the expected major type at `pos`,
/// accepting only the shortest (canonical) encoding. On success the
/// consumed bytes are exactly the header encoding of the value.
#[verifier::rlimit(100)]
#[verifier::spinoff_prover]
fn parse_head(data: &[u8], pos: usize, major: u8) -> (r: Result<(u64, usize), PQFSRError>)
    requires
        major < 8,
        pos <= data@.len(),
    ensures
        match r {
            Ok(vn) => pos < vn.1 <= data@.len() && data@.subrange(pos as int, vn.1 as int)
                == cbor_head_spec(major, vn.0) && head_at(data@, pos as int, major, vn.0),
            Err(e) => e == PQFSRError::DeserializationFailed && (forall|v: u64|
                !head_at(data@, pos as int, major, v)),
        },
{
    if pos >= data.len() {
        proof {
            assert forall|v: u64| !head_at(data@, pos as int, major, v) by {
                if head_at(data@, pos as int, major, v) {
                    lemma_head_at_inversion(data@, pos as int, major, v);
                }
            }
        }
        return Err(PQFSRError::DeserializationFailed);
    }
    let b = data[pos];
    if b / 32 != major {
        proof {
            assert forall|v: u64| !head_at(data@, pos as int, major, v) by {
                if head_at(data@, pos as int, major, v) {
                    lemma_head_at_inversion(data@, pos as int, major, v);
                }
            }
        }
        return Err(PQFSRError::DeserializationFailed);
    }
    let arg = b % 32;
    if arg < 24 {
        proof {
            assert(data@.subrange(pos as int, pos + 1) =~= seq![data@[pos as int]]);
            assert(b == (major as int) * 32 + (arg as int));
        }
        return Ok((arg as u64, pos + 1));
    }
    if arg == 24 {
        if data.len() - pos < 2 {
            proof {
                assert forall|v: u64| !head_at(data@, pos as int, major, v) by {
                    if head_at(data@, pos as int, major, v) {
                        lemma_head_at_inversion(data@, pos as int, major, v);
                    }
                }
            }
            return Err(PQFSRError::DeserializationFailed);
        }
        let v = data[pos + 1];
        if v < 24 {
            proof {
                assert forall|w: u64| !head_at(data@, pos as int, major, w) by {
                    if head_at(data@, pos as int, major, w) {
                        lemma_head_at_inversion(data@, pos as int, major, w);
                    }
                }
            }
            return Err(PQFSRError::DeserializationFailed);
        }
        proof {
            assert(data@.subrange(pos as int, pos + 2) =~= seq![
                data@[pos as int],
                data@[pos as int + 1],
            ]);
            assert(b == (major as int) * 32 + 24);
        }
        return Ok((v as u64, pos + 2));
    }
    if arg == 25 {
        if data.len() - pos < 3 {
            proof {
                assert forall|w: u64| !head_at(data@, pos as int, major, w) by {
                    if head_at(data@, pos as int, major, w) {
                        lemma_head_at_inversion(data@, pos as int, major, w);
                    }
                }
            }
            return Err(PQFSRError::DeserializationFailed);
        }
        let v: u64 = (data[pos + 1] as u64) * 0x100 + (data[pos + 2] as u64);
        proof {
            assert(data@.subrange(pos + 1, pos + 3) =~= seq![
                data@[pos as int + 1],
                data@[pos as int + 2],
            ]);
            assert(v == be16_val(data@.subrange(pos + 1, pos + 3)));
        }
        if v <= 0xFF {
            proof {
                assert forall|w: u64| !head_at(data@, pos as int, major, w) by {
                    if head_at(data@, pos as int, major, w) {
                        lemma_head_at_inversion(data@, pos as int, major, w);
                    }
                }
            }
            return Err(PQFSRError::DeserializationFailed);
        }
        let check = be16(v as u16);
        if !(check[0] == data[pos + 1] && check[1] == data[pos + 2]) {
            proof {
                assert forall|w: u64| !head_at(data@, pos as int, major, w) by {
                    if head_at(data@, pos as int, major, w) {
                        lemma_head_at_inversion(data@, pos as int, major, w);
                        lemma_be16_val(w as u16);
                        assert(w == v);
                        assert(data@.subrange(pos + 1, pos + 3) =~= be16_spec(w as u16));
                        assert(check@[0] == data@[pos as int + 1] && check@[1] == data@[pos as int
                            + 2]);
                    }
                }
            }
            return Err(PQFSRError::DeserializationFailed);
        }
        proof {
            assert(data@.subrange(pos as int, pos + 3) =~= seq![data@[pos as int]] + be16_spec(
                v as u16,
            ));
            assert(b == (major as int) * 32 + 25);
        }
        return Ok((v, pos + 3));
    }
    if arg == 26 {
        if data.len() - pos < 5 {
            proof {
                assert forall|w: u64| !head_at(data@, pos as int, major, w) by {
                    if head_at(data@, pos as int, major, w) {
                        lemma_head_at_inversion(data@, pos as int, major, w);
                    }
                }
            }
            return Err(PQFSRError::DeserializationFailed);
        }
        let v: u64 = (data[pos + 1] as u64) * 0x1000000 + (data[pos + 2] as u64) * 0x10000 + (
        data[pos + 3] as u64) * 0x100 + (data[pos + 4] as u64);
        proof {
            assert(data@.subrange(pos + 1, pos + 5) =~= seq![
                data@[pos as int + 1],
                data@[pos as int + 2],
                data@[pos as int + 3],
                data@[pos as int + 4],
            ]);
            assert(v == be32_val(data@.subrange(pos + 1, pos + 5)));
        }
        if v <= 0xFFFF {
            proof {
                assert forall|w: u64| !head_at(data@, pos as int, major, w) by {
                    if head_at(data@, pos as int, major, w) {
                        lemma_head_at_inversion(data@, pos as int, major, w);
                    }
                }
            }
            return Err(PQFSRError::DeserializationFailed);
        }
        let check = crate::session::be32(v as u32);
        if !(check[0] == data[pos + 1] && check[1] == data[pos + 2] && check[2] == data[pos + 3]
            && check[3] == data[pos + 4]) {
            proof {
                assert forall|w: u64| !head_at(data@, pos as int, major, w) by {
                    if head_at(data@, pos as int, major, w) {
                        lemma_head_at_inversion(data@, pos as int, major, w);
                        lemma_be32_val(w as u32);
                        assert(w == v);
                        assert(data@.subrange(pos + 1, pos + 5) =~= be32_spec(w as u32));
                        assert(check@[0] == data@[pos as int + 1] && check@[1] == data@[pos as int
                            + 2] && check@[2] == data@[pos as int + 3] && check@[3] == data@[
                        pos as int + 4]);
                    }
                }
            }
            return Err(PQFSRError::DeserializationFailed);
        }
        proof {
            assert(data@.subrange(pos as int, pos + 5) =~= seq![data@[pos as int]] + be32_spec(
                v as u32,
            ));
            assert(b == (major as int) * 32 + 26);
        }
        return Ok((v, pos + 5));
    }
    if arg == 27 {
        if data.len() - pos < 9 {
            proof {
                assert forall|w: u64| !head_at(data@, pos as int, major, w) by {
                    if head_at(data@, pos as int, major, w) {
                        lemma_head_at_inversion(data@, pos as int, major, w);
                    }
                }
            }
            return Err(PQFSRError::DeserializationFailed);
        }
        let v = read_be64(data, pos + 1);
        if v <= 0xFFFF_FFFF {
            proof {
                assert forall|w: u64| !head_at(data@, pos as int, major, w) by {
                    if head_at(data@, pos as int, major, w) {
                        lemma_head_at_inversion(data@, pos as int, major, w);
                    }
                }
            }
            return Err(PQFSRError::DeserializationFailed);
        }
        let check = be64(v);
        if !(check[0] == data[pos + 1] && check[1] == data[pos + 2] && check[2] == data[pos + 3]
            && check[3] == data[pos + 4] && check[4] == data[pos + 5] && check[5] == data[pos + 6]
            && check[6] == data[pos + 7] && check[7] == data[pos + 8]) {
            proof {
                assert forall|w: u64| !head_at(data@, pos as int, major, w) by {
                    if head_at(data@, pos as int, major, w) {
                        lemma_head_at_inversion(data@, pos as int, major, w);
                        lemma_be64_val(w);
                        assert(w == v);
                        assert(data@.subrange(pos + 1, pos + 9) =~= be64_spec(w));
                        assert forall|i: int| 0 <= i < 8 implies check@[i] == data@[pos as int + 1
                            + i] by {
                            assert(data@.subrange(pos + 1, pos + 9)[i] == data@[pos as int + 1 + i]);
                        }
                    }
                }
            }
            return Err(PQFSRError::DeserializationFailed);
        }
        proof {
            assert(data@.subrange(pos as int, pos + 9) =~= seq![data@[pos as int]] + be64_spec(v));
            assert(b == (major as int) * 32 + 27);
        }
        return Ok((v, pos + 9));
    }
    proof {
        assert forall|w: u64| !head_at(data@, pos as int, major, w) by {
            if head_at(data@, pos as int, major, w) {
                lemma_head_at_inversion(data@, pos as int, major, w);
            }
        }
    }
    Err(PQFSRError::DeserializationFailed)
}

/// Parse one unsigned integer item.
fn parse_uint(data: &[u8], pos: usize) -> (r: Result<(u64, usize), PQFSRError>)
    requires
        pos <= data@.len(),
    ensures
        match r {
            Ok(vn) => pos < vn.1 <= data@.len() && data@.subrange(pos as int, vn.1 as int)
                == cbor_uint_spec(vn.0) && head_at(data@, pos as int, 0, vn.0),
            Err(e) => e == PQFSRError::DeserializationFailed && (forall|v: u64|
                !head_at(data@, pos as int, 0, v)),
        },
{
    parse_head(data, pos, 0)
}

/// Parse one byte-string item.
fn parse_bytes(data: &[u8], pos: usize) -> (r: Result<(Vec<u8>, usize), PQFSRError>)
    requires
        pos <= data@.len(),
    ensures
        match r {
            Ok(vn) => pos < vn.1 <= data@.len() && data@.subrange(pos as int, vn.1 as int)
                == cbor_bytes_spec(vn.0@) && bytes_at(data@, pos as int, vn.0@),
            Err(e) => e == PQFSRError::DeserializationFailed && (forall|b: Seq<u8>|
                !bytes_at(data@, pos as int, b)),
        },
{
    let (len, p1) = match parse_head(data, pos, 2) {
        Ok(vn) => vn,
        Err(e) => {
            proof {
                assert forall|b: Seq<u8>| !bytes_at(data@, pos as int, b) by {
                    if bytes_at(data@, pos as int, b) {
                        lemma_bytes_at_head(data@, pos as int, b);
                    }
                }
            }
            return Err(e);
        },
    };
    if len > (data.len() - p1) as u64 {
        proof {
            assert forall|b: Seq<u8>| !bytes_at(data@, pos as int, b) by {
                if bytes_at(data@, pos as int, b) {
                    lemma_bytes_at_head(data@, pos as int, b);
                    lemma_head_at_unique(data@, pos as int, 2, len, b.len() as u64);
                }
            }
        }
        return Err(PQFSRError::DeserializationFailed);
    }
    let end = p1 + (len as usize);
    let body = copy_range(data, p1, end);
    proof {
        assert(data@.subrange(pos as int, end as int) =~= data@.subrange(pos as int, p1 as int)
            + data@.subrange(p1 as int, end as int));
        assert(data@.subrange(pos as int, end as int) =~= cbor_bytes_spec(body@));
    }
    Ok((body, end))
}

/// Parse one optional byte-string item (null for absent).
fn parse_opt_bytes(data: &[u8], pos: usize) -> (r: Result<(Option<Vec<u8>>, usize), PQFSRError>)
    requires
        pos <= data@.len(),
    ensures
        match r {
            Ok(vn) => pos < vn.1 <= data@.len() && data@.subrange(pos as int, vn.1 as int)
                == cbor_opt_bytes_spec(opt_view(vn.0)),
            Err(e) => e == PQFSRError::DeserializationFailed && (forall|o: Option<Seq<u8>>|
                !opt_bytes_at(data@, pos as int, o)),
        },
{
    if pos >= data.len() {
        proof {
            assert forall|o: Option<Seq<u8>>| !opt_bytes_at(data@, pos as int, o) by {
                if opt_bytes_at(data@, pos as int, o) {
                    assert(cbor_opt_bytes_spec(o).len() >= 1);
                }
            }
        }
        return Err(PQFSRError::DeserializationFailed);
    }
    if data[pos] == 0xf6u8 {
        proof {
            assert(data@.subrange(pos as int, pos + 1) =~= seq![data@[pos as int]]);
        }
        return Ok((None, pos + 1));
    }
    match parse_bytes(data, pos) {
        Ok((v, np)) => Ok((Some(v), np)),
        Err(e) => {
            proof {
                assert forall|o: Option<Seq<u8>>| !opt_bytes_at(data@, pos as int, o) by {
                    if opt_bytes_at(data@, pos as int, o) {
                        match o {
                            Some(b) => {
                                assert(data@.subrange(
                                    pos as int,
                                    pos + cbor_bytes_spec(b).len() as int,
                                ) == cbor_bytes_spec(b));
                                assert(bytes_at(data@, pos as int, b));
                            },
                            None => {
                                assert(data@.subrange(pos as int, pos + 1)[0] == data@[pos as int]);
                                assert(data@[pos as int] == 0xf6u8);
                            },
                        }
                    }
                }
            }
            Err(e)
        },
    }
}

/// Parse one boolean item.
fn parse_bool(data: &[u8], pos: usize) -> (r: Result<(bool, usize), PQFSRError>)
    requires
        pos <= data@.len(),
    ensures
        match r {
            Ok(vn) => pos < vn.1 <= data@.len() && data@.subrange(pos as int, vn.1 as int)
                == cbor_bool_spec(vn.0),
            Err(e) => e == PQFSRError::DeserializationFailed && (forall|x: bool|
                !bool_at(data@, pos as int, x)),
        },
{
    if pos >= data.len() {
        return Err(PQFSRError::DeserializationFailed);
    }
    let b = data[pos];
    if b == 0xf5u8 {
        proof {
            assert(data@.subrange(pos as int, pos + 1) =~= seq![data@[pos as int]]);
        }
        Ok((true, pos + 1))
    } else if b == 0xf4u8 {
        proof {
            assert(data@.subrange(pos as int, pos + 1) =~= seq![data@[pos as int]]);
        }
        Ok((false, pos + 1))
    } else {
        proof {
            assert forall|x: bool| !bool_at(data@, pos as int, x) by {
                if bool_at(data@, pos as int, x) {
                    assert(data@.subrange(pos as int, pos + 1)[0] == data@[pos as int]);
                }
            }
        }
        Err(PQFSRError::DeserializationFailed)
    }
}

/// Extending a known segment by the piece that follows it.
proof fn lemma_seg_extend(data: Seq<u8>, a0: int, a: int, b: int, acc: Seq<u8>, piece: Seq<u8>)
    requires
        0 <= a0 <= a <= b <= data.len(),
        data.subrange(a0, a) == acc,
        data.subrange(a, b) == piece,
    ensures
        data.subrange(a0, b) == acc + piece,
{
    assert(data.subrange(a0, b) =~= acc + piece);
}

/// The field block of a state record, as read off a blob: the two
/// version integers precede these values on the wire.
struct FieldsBlock {
    root_key: Vec<u8>,
    send_chain_key: Vec<u8>,
    recv_chain_key: Vec<u8>,
    send_label: Vec<u8>,
    recv_label: Vec<u8>,
    send_count: u64,
    recv_count: u64,
    previous_send_count: u64,
    local_ratchet_private: Vec<u8>,
    local_ratchet_public: Vec<u8>,
    remote_ratchet_public: Option<Vec<u8>>,
    combined_digest: Vec<u8>,
    local_digest: Vec<u8>,
    remote_digest: Option<Vec<u8>>,
}

/// The wire image of a field block.
spec fn fields_block_concat(f: FieldsBlock) -> Seq<u8> {
    cbor_uint_spec(1) + cbor_uint_spec(1) + cbor_bytes_spec(f.root_key@) + cbor_bytes_spec(
        f.send_chain_key@,
    ) + cbor_bytes_spec(f.recv_chain_key@) + cbor_bytes_spec(f.send_label@) + cbor_bytes_spec(
        f.recv_label@,
    ) + cbor_uint_spec(f.send_count) + cbor_uint_spec(f.recv_count) + cbor_uint_spec(
        f.previous_send_count,
    ) + cbor_bytes_spec(f.local_ratchet_private@) + cbor_bytes_spec(f.local_ratchet_public@)
        + cbor_opt_bytes_spec(opt_view(f.remote_ratchet_public)) + cbor_bytes_spec(
        f.combined_digest@,
    ) + cbor_bytes_spec(f.local_digest@) + cbor_opt_bytes_spec(opt_view(f.remote_digest))
}

/// Parse the two version integers and the field block of a state blob,
/// carrying the canonical-blob witness: on a witness blob the parse
/// cannot fail, reads exactly the witness state's fields, and ends
/// where the remainder begins.
#[verifier::rlimit(100)]
#[verifier::spinoff_prover]
fn parse_fields_block(
    data: &[u8],
    pos: usize,
    Ghost(witness): Ghost<bool>,
    Ghost(wst): Ghost<RatchetState>,
    Ghost(rest): Ghost<Seq<u8>>,
) -> (r: Result<(FieldsBlock, usize), PQFSRError>)
    requires
        pos <= data@.len(),
        witness ==> data@ == data@.subrange(0, pos as int) + state_fields_suffix(wst, rest),
    ensures
        match r {
            Ok(fe) => {
                &&& pos <= fe.1 <= data@.len()
                &&& data@.subrange(pos as int, fe.1 as int) == fields_block_concat(fe.0)
                &&& (witness ==> {
                    &&& fe.0.root_key@ == wst.root_key@
                    &&& fe.0.send_chain_key@ == wst.send_chain_key@
                    &&& fe.0.recv_chain_key@ == wst.recv_chain_key@
                    &&& fe.0.send_label@ == wst.send_label@
                    &&& fe.0.recv_label@ == wst.recv_label@
                    &&& fe.0.send_count == wst.send_count
                    &&& fe.0.recv_count == wst.recv_count
                    &&& fe.0.previous_send_count == wst.previous_send_count
                    &&& fe.0.local_ratchet_private@ == wst.local_ratchet_private@
                    &&& fe.0.local_ratchet_public@ == wst.local_ratchet_public@
                    &&& opt_view(fe.0.remote_ratchet_public) == opt_view(wst.remote_ratchet_public)
                    &&& fe.0.combined_digest@ == wst.combined_digest@
                    &&& fe.0.local_digest@ == wst.local_digest@
                    &&& opt_view(fe.0.remote_digest) == opt_view(wst.remote_digest)
                    &&& data@ == data@.subrange(0, fe.1 as int) + rest
                })
            },
            Err(e) => e == PQFSRError::DeserializationFailed && !witness,
        },
{
    let ghost d = data@;
    let ghost b16 = cbor_opt_bytes_spec(opt_view(wst.remote_digest)) + rest;
    let ghost b15 = cbor_bytes_spec(wst.local_digest@) + b16;
    let ghost b14 = cbor_bytes_spec(wst.combined_digest@) + b15;
    let ghost b13 = cbor_opt_bytes_spec(opt_view(wst.remote_ratchet_public)) + b14;
    let ghost b12 = cbor_bytes_spec(wst.local_ratchet_public@) + b13;
    let ghost b11 = cbor_bytes_spec(wst.local_ratchet_private@) + b12;
    let ghost b10 = cbor_uint_spec(wst.previous_send_count) + b11;
    let ghost b9 = cbor_uint_spec(wst.recv_count) + b10;
    let ghost b8 = cbor_uint_spec(wst.send_count) + b9;
    let ghost b7 = cbor_bytes_spec(wst.recv_label@) + b8;
    let ghost b6 = cbor_bytes_spec(wst.send_label@) + b7;
    let ghost b5 = cbor_bytes_spec(wst.recv_chain_key@) + b6;
    let ghost b4 = cbor_bytes_spec(wst.send_chain_key@) + b5;
    let ghost b3 = cbor_bytes_spec(wst.root_key@) + b4;
    let ghost b2 = cbor_uint_spec(1) + b3;
    proof {
        if witness {
            assert(state_fields_suffix(wst, rest) == cbor_uint_spec(1) + b2);
        }
    }
    let (schema, p2) = match parse_uint_step(
        data,
        pos,
        Ghost(witness),
        Ghost(1),
        Ghost(b2),
    ) {
        Ok(vn) => vn,
        Err(e) => {
            return Err(e);
        },
    };
    if schema != 1 {
        return Err(PQFSRError::DeserializationFailed);
    }
    let ghost c1 = cbor_uint_spec(1);
    proof {
        if witness {
            assert(d =~= d.subrange(0, p2 as int) + (cbor_uint_spec(1) + b3));
        }
    }
    let (proto, p3) = match parse_uint_step(
        data,
        p2,
        Ghost(witness),
        Ghost(1),
        Ghost(b3),
    ) {
        Ok(vn) => vn,
        Err(e) => {
            return Err(e);
        },
    };
    if proto != 1 {
        return Err(PQFSRError::DeserializationFailed);
    }
    let ghost c2 = c1 + cbor_uint_spec(1);
    proof {
        lemma_seg_extend(d, pos as int, p2 as int, p3 as int, c1, cbor_uint_spec(1));
        if witness {
            assert(d =~= d.subrange(0, p3 as int) + (cbor_bytes_spec(wst.root_key@) + b4));
        }
    }
    let (root_key, p4) = match parse_bytes_step(
        data,
        p3,
        Ghost(witness),
        Ghost(wst.root_key@),
        Ghost(b4),
    ) {
        Ok(vn) => vn,
        Err(e) => {
            return Err(e);
        },
    };
    let ghost c3 = c2 + cbor_bytes_spec(root_key@);
    proof {
        lemma_seg_extend(d, pos as int, p3 as int, p4 as int, c2, cbor_bytes_spec(root_key@));
        if witness {
            assert(d =~= d.subrange(0, p4 as int) + (cbor_bytes_spec(wst.send_chain_key@) + b5));
        }
    }
    let (send_chain_key, p5) = match parse_bytes_step(
        data,
        p4,
        Ghost(witness),
        Ghost(wst.send_chain_key@),
        Ghost(b5),
    ) {
        Ok(vn) => vn,
        Err(e) => {
            return Err(e);
        },
    };
    let ghost c4 = c3 + cbor_bytes_spec(send_chain_key@);
    proof {
        lemma_seg_extend(d, pos as int, p4 as int, p5 as int, c3, cbor_bytes_spec(send_chain_key@));
        if witness {
            assert(d =~= d.subrange(0, p5 as int) + (cbor_bytes_spec(wst.recv_chain_key@) + b6));
        }
    }
    let (recv_chain_key, p6) = match parse_bytes_step(
        data,
        p5,
        Ghost(witness),
        Ghost(wst.recv_chain_key@),
        Ghost(b6),
    ) {
        Ok(vn) => vn,
        Err(e) => {
            return Err(e);
        },
    };
    let ghost c5 = c4 + cbor_bytes_spec(recv_chain_key@);
    proof {
        lemma_seg_extend(d, pos as int, p5 as int, p6 as int, c4, cbor_bytes_spec(recv_chain_key@));
        if witness {
            assert(d =~= d.subrange(0, p6 as int) + (cbor_bytes_spec(wst.send_label@) + b7));
        }
    }
    let (send_label, p7) = match parse_bytes_step(
        data,
        p6,
        Ghost(witness),
        Ghost(wst.send_label@),
        Ghost(b7),
    ) {
        Ok(vn) => vn,
        Err(e) => {
            return Err(e);
        },
    };
    let ghost c6 = c5 + cbor_bytes_spec(send_label@);
    proof {
        lemma_seg_extend(d, pos as int, p6 as int, p7 as int, c5, cbor_bytes_spec(send_label@));
        if witness {
            assert(d =~= d.subrange(0, p7 as int) + (cbor_bytes_spec(wst.recv_label@) + b8));
        }
    }
    let (recv_label, p8) = match parse_bytes_step(
        data,
        p7,
        Ghost(witness),
        Ghost(wst.recv_label@),
        Ghost(b8),
    ) {
        Ok(vn) => vn,
        Err(e) => {
            return Err(e);
        },
    };
    let ghost c7 = c6 + cbor_bytes_spec(recv_label@);
    proof {
        lemma_seg_extend(d, pos as int, p7 as int, p8 as int, c6, cbor_bytes_spec(recv_label@));
        if witness {
            assert(d =~= d.subrange(0, p8 as int) + (cbor_uint_spec(wst.send_count) + b9));
        }
    }
    let (send_count, p9) = match parse_uint_step(
        data,
        p8,
        Ghost(witness),
        Ghost(wst.send_count),
        Ghost(b9),
    ) {
        Ok(vn) => vn,
        Err(e) => {
            return Err(e);
        },
    };
    let ghost c8 = c7 + cbor_uint_spec(send_count);
    proof {
        lemma_seg_extend(d, pos as int, p8 as int, p9 as int, c7, cbor_uint_spec(send_count));
        if witness {
            assert(d =~= d.subrange(0, p9 as int) + (cbor_uint_spec(wst.recv_count) + b10));
        }
    }
    let (recv_count, p10) = match parse_uint_step(
        data,
        p9,
        Ghost(witness),
        Ghost(wst.recv_count),
        Ghost(b10),
    ) {
        Ok(vn) => vn,
        Err(e) => {
            return Err(e);
        },
    };
    let ghost c9 = c8 + cbor_uint_spec(recv_count);
    proof {
        lemma_seg_extend(d, pos as int, p9 as int, p10 as int, c8, cbor_uint_spec(recv_count));
        if witness {
            assert(d =~= d.subrange(0, p10 as int) + (cbor_uint_spec(wst.previous_send_count) + b11));
        }
    }
    let (previous_send_count, p11) = match parse_uint_step(
        data,
        p10,
        Ghost(witness),
        Ghost(wst.previous_send_count),
        Ghost(b11),
    ) {
        Ok(vn) => vn,
        Err(e) => {
            return Err(e);
        },
    };
    let ghost c10 = c9 + cbor_uint_spec(previous_send_count);
    proof {
        lemma_seg_extend(
            d,
            pos as int,
            p10 as int,
            p11 as int,
            c9,
            cbor_uint_spec(previous_send_count),
        );
        if witness {
            assert(d =~= d.subrange(0, p11 as int) + (cbor_bytes_spec(wst.local_ratchet_private@)
                + b12));
        }
    }
    let (local_ratchet_private, p12) = match parse_bytes_step(
        data,
        p11,
        Ghost(witness),
        Ghost(wst.local_ratchet_private@),
        Ghost(b12),
    ) {
        Ok(vn) => vn,
        Err(e) => {
            return Err(e);
        },
    };
    let ghost c11 = c10 + cbor_bytes_spec(local_ratchet_private@);
    proof {
        lemma_seg_extend(
            d,
            pos as int,
            p11 as int,
            p12 as int,
            c10,
            cbor_bytes_spec(local_ratchet_private@),
        );
        if witness {
            assert(d =~= d.subrange(0, p12 as int) + (cbor_bytes_spec(wst.local_ratchet_public@)
                + b13));
        }
    }
    let (local_ratchet_public, p13) = match parse_bytes_step(
        data,
        p12,
        Ghost(witness),
        Ghost(wst.local_ratchet_public@),
        Ghost(b13),
    ) {
        Ok(vn) => vn,
        Err(e) => {
            return Err(e);
        },
    };
    let ghost c12 = c11 + cbor_bytes_spec(local_ratchet_public@);
    proof {
        lemma_seg_extend(
            d,
            pos as int,
            p12 as int,
            p13 as int,
            c11,
            cbor_bytes_spec(local_ratchet_public@),
        );
        if witness {
            assert(d =~= d.subrange(0, p13 as int) + (cbor_opt_bytes_spec(
                opt_view(wst.remote_ratchet_public),
            ) + b14));
        }
    }
    let (remote_ratchet_public, p14) = match parse_opt_step(
        data,
        p13,
        Ghost(witness),
        Ghost(opt_view(wst.remote_ratchet_public)),
        Ghost(b14),
    ) {
        Ok(vn) => vn,
        Err(e) => {
            return Err(e);
        },
    };
    let ghost c13 = c12 + cbor_opt_bytes_spec(opt_view(remote_ratchet_public));
    proof {
        lemma_seg_extend(
            d,
            pos as int,
            p13 as int,
            p14 as int,
            c12,
            cbor_opt_bytes_spec(opt_view(remote_ratchet_public)),
        );
        if witness {
            assert(d =~= d.subrange(0, p14 as int) + (cbor_bytes_spec(wst.combined_digest@) + b15));
        }
    }
    let (combined_digest, p15) = match parse_bytes_step(
        data,
        p14,
        Ghost(witness),
        Ghost(wst.combined_digest@),
        Ghost(b15),
    ) {
        Ok(vn) => vn,
        Err(e) => {
            return Err(e);
        },
    };
    let ghost c14 = c13 + cbor_bytes_spec(combined_digest@);
    proof {
        lemma_seg_extend(
            d,
            pos as int,
            p14 as int,
            p15 as int,
            c13,
            cbor_bytes_spec(combined_digest@),
        );
        if witness {
            assert(d =~= d.subrange(0, p15 as int) + (cbor_bytes_spec(wst.local_digest@) + b16));
        }
    }
    let (local_digest, p16) = match parse_bytes_step(
        data,
        p15,
        Ghost(witness),
        Ghost(wst.local_digest@),
        Ghost(b16),
    ) {
        Ok(vn) => vn,
        Err(e) => {
            return Err(e);
        },
    };
    let ghost c15 = c14 + cbor_bytes_spec(local_digest@);
    proof {
        lemma_seg_extend(d, pos as int, p15 as int, p16 as int, c14, cbor_bytes_spec(local_digest@));
        if witness {
            assert(d =~= d.subrange(0, p16 as int) + (cbor_opt_bytes_spec(
                opt_view(wst.remote_digest),
            ) + rest));
        }
    }
    let (remote_digest, p17) = match parse_opt_step(
        data,
        p16,
        Ghost(witness),
        Ghost(opt_view(wst.remote_digest)),
        Ghost(rest),
    ) {
        Ok(vn) => vn,
        Err(e) => {
            return Err(e);
        },
    };
    let ghost c16 = c15 + cbor_opt_bytes_spec(opt_view(remote_digest));
    proof {
        lemma_seg_extend(
            d,
            pos as int,
            p16 as int,
            p17 as int,
            c15,
            cbor_opt_bytes_spec(opt_view(remote_digest)),
        );
    }
    let f = FieldsBlock {
        root_key,
        send_chain_key,
        recv_chain_key,
        send_label,
        recv_label,
        send_count,
        recv_count,
        previous_send_count,
        local_ratchet_private,
        local_ratchet_public,
        remote_ratchet_public,
        combined_digest,
        local_digest,
        remote_digest,
    };
    proof {
        assert(c16 == fields_block_concat(f));
    }
    Ok((f, p17))
}

/// Deserialize a state blob. Only the exact canonical encoding of a
/// state is accepted: on success the input is, byte for byte, the blob
/// of the returned state, hint and role — and every state blob is
/// accepted, so serialization round-trips.
#[verifier::rlimit(100)]
#[verifier::spinoff_prover]
pub fn deserialize_state_cbor(data: &[u8]) -> (r: Result<
    (RatchetState, Vec<u8>, bool),
    PQFSRError,
>)
    ensures
        match r {
            Ok(out) => data@ == state_blob_spec(out.0, out.1@, out.2),
            Err(e) => e == PQFSRError::DeserializationFailed,
        },
        (exists|st: RatchetState, h: Seq<u8>, b: bool|
            data@ == state_blob_suffix_form(st, h, b)) ==> r is Ok,
{
    let total = data.len();
    let ghost d = data@;
    let ghost has_witness = exists|st: RatchetState, h: Seq<u8>, b: bool|
        d == state_blob_suffix_form(st, h, b);
    let ghost (wst, wh, wb): (RatchetState, Seq<u8>, bool) = if has_witness {
        choose|st: RatchetState, h: Seq<u8>, b: bool| d == state_blob_suffix_form(st, h, b)
    } else {
        arbitrary()
    };
    let ghost wview = cache_view(wst.skipped_message_keys@);
    let ghost q21 = cbor_bool_spec(wb);
    let ghost q20 = cbor_bytes_spec(wh) + q21;
    let ghost q19 = cbor_uint_spec(wst.max_skip as u64) + q20;
    let ghost q18 = cbor_items_spec(wview) + q19;
    let ghost q17 = cbor_head_spec(4, wst.skipped_message_keys@.len() as u64) + q18;
    let ghost q16 = cbor_opt_bytes_spec(opt_view(wst.remote_digest)) + q17;
    let ghost q15 = cbor_bytes_spec(wst.local_digest@) + q16;
    let ghost q14 = cbor_bytes_spec(wst.combined_digest@) + q15;
    let ghost q13 = cbor_opt_bytes_spec(opt_view(wst.remote_ratchet_public)) + q14;
    let ghost q12 = cbor_bytes_spec(wst.local_ratchet_public@) + q13;
    let ghost q11 = cbor_bytes_spec(wst.local_ratchet_private@) + q12;
    let ghost q10 = cbor_uint_spec(wst.previous_send_count) + q11;
    let ghost q9 = cbor_uint_spec(wst.recv_count) + q10;
    let ghost q8 = cbor_uint_spec(wst.send_count) + q9;
    let ghost q7 = cbor_bytes_spec(wst.recv_label@) + q8;
    let ghost q6 = cbor_bytes_spec(wst.send_label@) + q7;
    let ghost q5 = cbor_bytes_spec(wst.recv_chain_key@) + q6;
    let ghost q4 = cbor_bytes_spec(wst.send_chain_key@) + q5;
    let ghost q3 = cbor_bytes_spec(wst.root_key@) + q4;
    let ghost q2 = cbor_uint_spec(1) + q3;
    let ghost q1 = cbor_uint_spec(1) + q2;
    let ghost q0 = cbor_head_spec(4, 20) + q1;
    proof {
        if has_witness {
            assert(d == state_blob_suffix_form(wst, wh, wb));
            assert(d == q0);
            assert(d =~= d.subrange(0, 0) + q0);
        }
    }

    let (arity, p1) = match parse_head(data, 0, 4) {
        Ok(vn) => vn,
        Err(e) => {
            proof {
                if has_witness {
                    lemma_step(d, 0, cbor_head_spec(4, 20), q1);
                    assert(head_at(data@, 0, 4, 20));
                    assert(false);
                }
            }
            return Err(e);
        },
    };
    proof {
        if has_witness {
            lemma_step(d, 0, cbor_head_spec(4, 20), q1);
            assert(head_at(data@, 0, 4, 20));
            lemma_head_at_unique(data@, 0, 4, arity, 20);
            assert(p1 == cbor_head_spec(4, 20).len());
        }
    }
    if arity != 20 {
        return Err(PQFSRError::DeserializationFailed);
    }
    let ghost acc0 = cbor_head_spec(4, 20);
    proof {
        assert(d.subrange(0, p1 as int) == acc0);
    }

    let ghost q_fields = state_fields_suffix(wst, q17);
    proof {
        if has_witness {
            assert(q1 == q_fields);
            assert(d == d.subrange(0, p1 as int) + q_fields);
        }
    }
    let (fields, p17) = match parse_fields_block(data, p1, Ghost(has_witness), Ghost(wst), Ghost(
        q17,
    )) {
        Ok(fe) => fe,
        Err(e) => {
            return Err(e);
        },
    };
    let ghost acc16 = acc0 + fields_block_concat(fields);
    proof {
        lemma_prefix_extend(d, p1 as int, p17 as int, acc0, fields_block_concat(fields));
    }

    let (n_skipped, p18) = match parse_head(data, p17, 4) {
        Ok(vn) => vn,
        Err(e) => {
            proof {
                if has_witness {
                    lemma_step(
                        d,
                        p17 as int,
                        cbor_head_spec(4, wst.skipped_message_keys@.len() as u64),
                        q18,
                    );
                    assert(head_at(
                        data@,
                        p17 as int,
                        4,
                        wst.skipped_message_keys@.len() as u64,
                    ));
                    assert(false);
                }
            }
            return Err(e);
        },
    };
    proof {
        if has_witness {
            lemma_step(
                d,
                p17 as int,
                cbor_head_spec(4, wst.skipped_message_keys@.len() as u64),
                q18,
            );
            assert(head_at(data@, p17 as int, 4, wst.skipped_message_keys@.len() as u64));
            lemma_head_at_unique(
                data@,
                p17 as int,
                4,
                n_skipped,
                wst.skipped_message_keys@.len() as u64,
            );
            lemma_items_len(wview);
            assert(d.len() == p18 + cbor_items_spec(wview).len() + q19.len());
            assert(wview.len() <= d.len() <= total);
            assert(n_skipped == wst.skipped_message_keys@.len());
            assert(p18 == p17 + cbor_head_spec(4, n_skipped).len());
            assert(d == d.subrange(0, p18 as int) + (cbor_items_spec(wview) + q19));
        }
    }
    let ghost acc17 = acc16 + cbor_head_spec(4, n_skipped);
    proof {
        lemma_prefix_extend(d, p17 as int, p18 as int, acc16, cbor_head_spec(4, n_skipped));
    }

    let mut skipped_message_keys: Vec<SkippedKey> = Vec::new();
    let mut pos: usize = p18;
    let mut j: u64 = 0;
    proof {
        assert(cache_view(skipped_message_keys@) =~= Seq::<(u64, Seq<u8>, Seq<u8>)>::empty());
        assert(d.subrange(p18 as int, pos as int) =~= cbor_items_spec(
            cache_view(skipped_message_keys@),
        ));
        if has_witness {
            assert(wview.skip(0) =~= wview);
        }
    }
    while j < n_skipped
        invariant
            j <= n_skipped,
            p18 <= pos <= d.len(),
            d == data@,
            skipped_message_keys@.len() == j,
            d.subrange(p18 as int, pos as int) == cbor_items_spec(
                cache_view(skipped_message_keys@),
            ),
            has_witness == (exists|st: RatchetState, h: Seq<u8>, b: bool|
                d == state_blob_suffix_form(st, h, b)),
            has_witness ==> {
                &&& n_skipped == wview.len()
                &&& d == d.subrange(0, pos as int) + (cbor_items_spec(wview.skip(j as int)) + q19)
            },
        decreases n_skipped - j,
    {
        proof {
            if has_witness {
                assert(wview.skip(j as int).len() > 0);
                assert(cbor_items_spec(wview.skip(j as int)) == cbor_entry_spec(
                    wview.skip(j as int)[0],
                ) + cbor_items_spec(wview.skip(j as int).skip(1)));
                assert(wview.skip(j as int)[0] == wview[j as int]);
                assert(wview.skip(j as int).skip(1) =~= wview.skip(j as int + 1));
                assert(d == d.subrange(0, pos as int) + (cbor_entry_spec(wview[j as int]) + (
                cbor_items_spec(wview.skip(j as int + 1)) + q19))) by {
                    assert(d =~= d.subrange(0, pos as int) + (cbor_entry_spec(wview[j as int]) + (
                    cbor_items_spec(wview.skip(j as int + 1)) + q19)));
                }
            }
        }
        let ghost witem: (u64, Seq<u8>, Seq<u8>) = if has_witness {
            wview[j as int]
        } else {
            arbitrary()
        };
        let ghost rest_after = cbor_items_spec(wview.skip(j as int + 1)) + q19;
        let ghost r1 = cbor_uint_spec(witem.0) + (cbor_bytes_spec(witem.1) + (cbor_bytes_spec(
            witem.2,
        ) + rest_after));
        proof {
            if has_witness {
                assert(cbor_entry_spec(witem) + rest_after =~= cbor_head_spec(4, 3) + r1);
                assert(d == d.subrange(0, pos as int) + (cbor_head_spec(4, 3) + r1));
            }
        }
        let (three, q1x) = match parse_head(data, pos, 4) {
            Ok(vn) => vn,
            Err(e) => {
                proof {
                    if has_witness {
                        lemma_step(d, pos as int, cbor_head_spec(4, 3), r1);
                        assert(head_at(data@, pos as int, 4, 3));
                        assert(false);
                    }
                }
                return Err(e);
            },
        };
        proof {
            if has_witness {
                lemma_step(d, pos as int, cbor_head_spec(4, 3), r1);
                assert(head_at(data@, pos as int, 4, 3));
                lemma_head_at_unique(data@, pos as int, 4, three, 3);
                assert(q1x == pos + cbor_head_spec(4, 3).len());
            }
        }
        if three != 3 {
            return Err(PQFSRError::DeserializationFailed);
        }
        let (idx, q2x) = match parse_uint_step(
            data,
            q1x,
            Ghost(has_witness),
            Ghost(witem.0),
            Ghost(cbor_bytes_spec(witem.1) + (cbor_bytes_spec(witem.2) + rest_after)),
        ) {
            Ok(vn) => vn,
            Err(e) => {
                return Err(e);
            },
        };
        let (key, q3x) = match parse_bytes_step(
            data,
            q2x,
            Ghost(has_witness),
            Ghost(witem.1),
            Ghost(cbor_bytes_spec(witem.2) + rest_after),
        ) {
            Ok(vn) => vn,
            Err(e) => {
                return Err(e);
            },
        };
        let (nonce, q4x) = match parse_bytes_step(
            data,
            q3x,
            Ghost(has_witness),
            Ghost(witem.2),
            Ghost(rest_after),
        ) {
            Ok(vn) => vn,
            Err(e) => {
                return Err(e);
            },
        };
        let ghost cache_pre = cache_view(skipped_message_keys@);
        let ghost ev = (idx, key@, nonce@);
        proof {
            assert(d.subrange(pos as int, q4x as int) =~= cbor_head_spec(4, 3) + cbor_uint_spec(idx)
                + cbor_bytes_spec(key@) + cbor_bytes_spec(nonce@));
            assert(d.subrange(pos as int, q4x as int) == cbor_entry_spec(ev));
        }
        skipped_message_keys.push(SkippedKey { index: idx, key, nonce });
        proof {
            assert(cache_view(skipped_message_keys@) =~= cache_pre.push(ev));
            lemma_cbor_items_snoc(cache_pre, ev);
            assert(d.subrange(p18 as int, q4x as int) =~= d.subrange(p18 as int, pos as int)
                + d.subrange(pos as int, q4x as int));
            if has_witness {
                assert(d =~= d.subrange(0, q4x as int) + (cbor_items_spec(
                    wview.skip(j as int + 1),
                ) + q19));
            }
        }
        pos = q4x;
        j = j + 1;
    }
    proof {
        if has_witness {
            assert(wview.skip(j as int).len() == 0);
            assert(cbor_items_spec(wview.skip(j as int)) =~= Seq::<u8>::empty());
            assert(d =~= d.subrange(0, pos as int) + (cbor_uint_spec(wst.max_skip as u64) + q20));
        }
    }
    let ghost acc18 = acc17 + cbor_items_spec(cache_view(skipped_message_keys@));
    proof {
        lemma_prefix_extend(
            d,
            p18 as int,
            pos as int,
            acc17,
            cbor_items_spec(cache_view(skipped_message_keys@)),
        );
    }

    let (max_skip64, p19) = match parse_uint_step(
        data,
        pos,
        Ghost(has_witness),
        Ghost(wst.max_skip as u64),
        Ghost(q20),
    ) {
        Ok(vn) => vn,
        Err(e) => {
            return Err(e);
        },
    };
    if max_skip64 > (usize::MAX as u64) {
        return Err(PQFSRError::DeserializationFailed);
    }
    let ghost acc19 = acc18 + cbor_uint_spec(max_skip64);
    proof {
        lemma_prefix_extend(d, pos as int, p19 as int, acc18, cbor_uint_spec(max_skip64));
    }

    let (semantic_hint, p20) = match parse_bytes_step(
        data,
        p19,
        Ghost(has_witness),
        Ghost(wh),
        Ghost(q21),
    ) {
        Ok(vn) => vn,
        Err(e) => {
            return Err(e);
        },
    };
    let ghost acc20 = acc19 + cbor_bytes_spec(semantic_hint@);
    proof {
        lemma_prefix_extend(d, p19 as int, p20 as int, acc19, cbor_bytes_spec(semantic_hint@));
    }

    let (is_initiator, p21) = match parse_bool(data, p20) {
        Ok(vn) => vn,
        Err(e) => {
            proof {
                if has_witness {
                    lemma_step(d, p20 as int, cbor_bool_spec(wb), Seq::<u8>::empty());
                    assert(bool_at(data@, p20 as int, wb));
                    assert(false);
                }
            }
            return Err(e);
        },
    };
    let ghost acc21 = acc20 + cbor_bool_spec(is_initiator);
    proof {
        lemma_prefix_extend(d, p20 as int, p21 as int, acc20, cbor_bool_spec(is_initiator));
    }

    if p21 != data.len() {
        proof {
            if has_witness {
                lemma_step(d, p20 as int, cbor_bool_spec(wb), Seq::<u8>::empty());
                assert(d.subrange(p20 as int, p20 as int + 1)[0] == d[p20 as int]);
                assert(d.subrange(p20 as int, p21 as int)[0] == d[p20 as int]);
                assert(p21 == p20 + 1);
                assert(p21 == d.len());
            }
        }
        return Err(PQFSRError::DeserializationFailed);
    }

    let ghost fields_snapshot = fields;
    let state = RatchetState {
        root_key: fields.root_key,
        send_chain_key: fields.send_chain_key,
        recv_chain_key: fields.recv_chain_key,
        send_label: fields.send_label,
        recv_label: fields.recv_label,
        send_count: fields.send_count,
        recv_count: fields.recv_count,
        previous_send_count: fields.previous_send_count,
        local_ratchet_private: fields.local_ratchet_private,
        local_ratchet_public: fields.local_ratchet_public,
        remote_ratchet_public: fields.remote_ratchet_public,
        combined_digest: fields.combined_digest,
        local_digest: fields.local_digest,
        remote_digest: fields.remote_digest,
        skipped_message_keys,
        max_skip: max_skip64 as usize,
    };
    proof {
        assert(d.subrange(0, d.len() as int) =~= d);
        assert(d == acc21);
        assert(fields_block_concat(fields_snapshot) == state_fields_concat(state));
        assert(acc21 == state_blob_grouped(state, semantic_hint@, is_initiator));
        lemma_blob_regroup(state, semantic_hint@, is_initiator);
    }
    Ok((state, semantic_hint, is_initiator))
}

/// Parse one unsigned integer item, carrying the canonical-blob
/// witness: when the data splits at `pos` into the encoding of `wv`
/// followed by `rest`, the parse cannot fail and yields `wv`, ending
/// where `rest` begins.
fn parse_uint_step(
    data: &[u8],
    pos: usize,
    Ghost(witness): Ghost<bool>,
    Ghost(wv): Ghost<u64>,
    Ghost(rest): Ghost<Seq<u8>>,
) -> (r: Result<(u64, usize), PQFSRError>)
    requires
        pos <= data@.len(),
        witness ==> data@ == data@.subrange(0, pos as int) + (cbor_uint_spec(wv) + rest),
    ensures
        match r {
            Ok(vn) => pos < vn.1 <= data@.len() && data@.subrange(pos as int, vn.1 as int)
                == cbor_uint_spec(vn.0) && (witness ==> vn.0 == wv && data@ == data@.subrange(
                0,
                vn.1 as int,
            ) + rest),
            Err(e) => e == PQFSRError::DeserializationFailed && !witness,
        },
{
    proof {
        if witness {
            lemma_step(data@, pos as int, cbor_uint_spec(wv), rest);
        }
    }
    let r = parse_uint(data, pos);
    proof {
        if witness {
            assert(head_at(data@, pos as int, 0, wv));
            match r {
                Ok(vn) => {
                    lemma_head_at_unique(data@, pos as int, 0, vn.0, wv);
                    assert(vn.1 == pos + cbor_head_spec(0, vn.0).len());
                    assert(data@ =~= data@.subrange(0, vn.1 as int) + rest);
                },
                Err(_) => {
                    assert(false);
                },
            }
        }
    }
    r
}

/// Parse one byte-string item, carrying the canonical-blob witness, as
/// [`parse_uint_step`] does for integers.
fn parse_bytes_step(
    data: &[u8],
    pos: usize,
    Ghost(witness): Ghost<bool>,
    Ghost(wv): Ghost<Seq<u8>>,
    Ghost(rest): Ghost<Seq<u8>>,
) -> (r: Result<(Vec<u8>, usize), PQFSRError>)
    requires
        pos <= data@.len(),
        witness ==> data@ == data@.subrange(0, pos as int) + (cbor_bytes_spec(wv) + rest),
    ensures
        match r {
            Ok(vn) => pos < vn.1 <= data@.len() && data@.subrange(pos as int, vn.1 as int)
                == cbor_bytes_spec(vn.0@) && (witness ==> vn.0@ == wv && data@ == data@.subrange(
                0,
                vn.1 as int,
            ) + rest),
            Err(e) => e == PQFSRError::DeserializationFailed && !witness,
        },
{
    let total = data.len();
    proof {
        if witness {
            lemma_step(data@, pos as int, cbor_bytes_spec(wv), rest);
        }
    }
    let r = parse_bytes(data, pos);
    proof {
        if witness {
            assert(bytes_at(data@, pos as int, wv));
            match &r {
                Ok(vn) => {
                    lemma_bytes_at_head(data@, pos as int, wv);
                    lemma_bytes_at_head(data@, pos as int, vn.0@);
                    lemma_head_at_unique(
                        data@,
                        pos as int,
                        2,
                        vn.0@.len() as u64,
                        wv.len() as u64,
                    );
                    assert(data@.len() == total);
                    assert(vn.0@.len() <= data@.len() <= u64::MAX);
                    assert(wv.len() + cbor_head_spec(2, wv.len() as u64).len() <= data@.len()
                        <= u64::MAX);
                    assert(vn.0@.len() == wv.len());
                    assert(cbor_bytes_spec(vn.0@).len() == cbor_bytes_spec(wv).len());
                    assert forall|i: int| 0 <= i < wv.len() implies vn.0@[i] == wv[i] by {
                        let hl = cbor_head_spec(2, wv.len() as u64).len() as int;
                        assert(data@.subrange(
                            pos as int,
                            pos + cbor_bytes_spec(vn.0@).len() as int,
                        )[hl + i] == vn.0@[i]);
                        assert(data@.subrange(
                            pos as int,
                            pos + cbor_bytes_spec(wv).len() as int,
                        )[hl + i] == wv[i]);
                    }
                    assert(vn.0@ =~= wv);
                    assert(data@ =~= data@.subrange(0, vn.1 as int) + rest);
                },
                Err(_) => {
                    assert(false);
                },
            }
        }
    }
    r
}

/// Parse one optional byte-string item, carrying the canonical-blob
/// witness, as [`parse_uint_step`] does for integers.
fn parse_opt_step(
    data: &[u8],
    pos: usize,
    Ghost(witness): Ghost<bool>,
    Ghost(wv): Ghost<Option<Seq<u8>>>,
    Ghost(rest): Ghost<Seq<u8>>,
) -> (r: Result<(Option<Vec<u8>>, usize), PQFSRError>)
    requires
        pos <= data@.len(),
        witness ==> data@ == data@.subrange(0, pos as int) + (cbor_opt_bytes_spec(wv) + rest),
    ensures
        match r {
            Ok(vn) => pos < vn.1 <= data@.len() && data@.subrange(pos as int, vn.1 as int)
                == cbor_opt_bytes_spec(opt_view(vn.0)) && (witness ==> opt_view(vn.0) == wv
                && data@ == data@.subrange(0, vn.1 as int) + rest),
            Err(e) => e == PQFSRError::DeserializationFailed && !witness,
        },
{
    let total = data.len();
    proof {
        if witness {
            lemma_step(data@, pos as int, cbor_opt_bytes_spec(wv), rest);
        }
    }
    let r = parse_opt_bytes(data, pos);
    proof {
        if witness {
            assert(opt_bytes_at(data@, pos as int, wv));
            match &r {
                Ok(vn) => {
                    assert(data@.len() == total);
                    assert(opt_bytes_at(data@, pos as int, opt_view(vn.0)));
                    lemma_opt_bytes_at_unique(data@, pos as int, opt_view(vn.0), wv);
                    assert(data@ =~= data@.subrange(0, vn.1 as int) + rest);
                },
                Err(_) => {
                    assert(false);
                },
            }
        }
    }
    r
}

/// Two optional byte-string items at the same position agree: the
/// first byte separates null from a byte string, and byte strings at
/// one position are unique.
proof fn lemma_opt_bytes_at_unique(
    data: Seq<u8>,
    pos: int,
    o1: Option<Seq<u8>>,
    o2: Option<Seq<u8>>,
)
    requires
        opt_bytes_at(data, pos, o1),
        opt_bytes_at(data, pos, o2),
        data.len() <= u64::MAX,
    ensures
        o1 == o2,
        cbor_opt_bytes_spec(o1).len() == cbor_opt_bytes_spec(o2).len(),
{
    lemma_opt_first_byte(data, pos, o1);
    lemma_opt_first_byte(data, pos, o2);
    match (o1, o2) {
        (Some(b1), Some(b2)) => {
            assert(bytes_at(data, pos, b1));
            assert(bytes_at(data, pos, b2));
            lemma_bytes_at_head(data, pos, b1);
            lemma_bytes_at_head(data, pos, b2);
            lemma_head_at_unique(data, pos, 2, b1.len() as u64, b2.len() as u64);
            assert(b1.len() == b2.len());
            assert forall|i: int| 0 <= i < b1.len() implies b1[i] == b2[i] by {
                let hl = cbor_head_spec(2, b1.len() as u64).len() as int;
                assert(data.subrange(pos, pos + cbor_bytes_spec(b1).len() as int)[hl + i]
                    == b1[i]);
                assert(data.subrange(pos, pos + cbor_bytes_spec(b2).len() as int)[hl + i]
                    == b2[i]);
            }
            assert(b1 =~= b2);
        },
        (None, None) => {},
        _ => {
            assert(false);
        },
    }
}

/// The first byte of an optional byte-string item: 0xf6 exactly when it
/// is null.
proof fn lemma_opt_first_byte(data: Seq<u8>, pos: int, o: Option<Seq<u8>>)
    requires
        opt_bytes_at(data, pos, o),
    ensures
        pos < data.len(),
        o is None <==> data[pos] == 0xf6u8,
{
    match o {
        Some(b) => {
            assert(bytes_at(data, pos, b));
            lemma_bytes_at_head(data, pos, b);
            lemma_head_at_inversion(data, pos, 2, b.len() as u64);
            assert(data[pos] / 32 == 2);
        },
        None => {
            assert(data.subrange(pos, pos + 1)[0] == data[pos]);
        },
    }
}

/// The 16-byte header of an encrypted state container,
/// `"PQFSR_ENC_V1____"`.
pub open spec fn enc_header_spec() -> Seq<u8> {
    seq![
        80u8,
        81u8,
        70u8,
        83u8,
        82u8,
        95u8,
        69u8,
        78u8,
        67u8,
        95u8,
        86u8,
        49u8,
        95u8,
        95u8,
        95u8,
        95u8,
    ]
}

/// The HKDF salt for state-at-rest keys, `"PQ-FSR-STATE-ENC"`.
pub open spec fn enc_salt_spec() -> Seq<u8> {
    seq![
        80u8,
        81u8,
        45u8,
        70u8,
        83u8,
        82u8,
        45u8,
        83u8,
        84u8,
        65u8,
        84u8,
        69u8,
        45u8,
        69u8,
        78u8,
        67u8,
    ]
}

/// The HKDF info for the state-at-rest key, `"enc_key"`.
pub open spec fn enc_key_info_spec() -> Seq<u8> {
    seq![101u8, 110u8, 99u8, 95u8, 107u8, 101u8, 121u8]
}

/// The HKDF info for the state-at-rest nonce, `"enc_nonce"`.
pub open spec fn enc_nonce_info_spec() -> Seq<u8> {
    seq![101u8, 110u8, 99u8, 95u8, 110u8, 111u8, 110u8, 99u8, 101u8]
}

/// The state-at-rest AEAD key a password derives.
pub open spec fn state_enc_key_spec(pw: Seq<u8>) -> Seq<u8> {
    hkdf_spec(pw, enc_salt_spec(), enc_key_info_spec(), 32)
}

/// The state-at-rest AEAD nonce a password derives.
pub open spec fn state_enc_nonce_spec(pw: Seq<u8>) -> Seq<u8> {
    hkdf_spec(pw, enc_salt_spec(), enc_nonce_info_spec(), 12)
}

fn enc_header() -> (r: Vec<u8>)
    ensures
        r@ == enc_header_spec(),
{
    let v: Vec<u8> = vec![
        80u8,
        81u8,
        70u8,
        83u8,
        82u8,
        95u8,
        69u8,
        78u8,
        67u8,
        95u8,
        86u8,
        49u8,
        95u8,
        95u8,
        95u8,
        95u8,
    ];
    proof {
        assert(v@ =~= enc_header_spec());
    }
    v
}

fn enc_salt() -> (r: Vec<u8>)
    ensures
        r@ == enc_salt_spec(),
{
    let v: Vec<u8> = vec![
        80u8,
        81u8,
        45u8,
        70u8,
        83u8,
        82u8,
        45u8,
        83u8,
        84u8,
        65u8,
        84u8,
        69u8,
        45u8,
        69u8,
        78u8,
        67u8,
    ];
    proof {
        assert(v@ =~= enc_salt_spec());
    }
    v
}

fn enc_key_info() -> (r: Vec<u8>)
    ensures
        r@ == enc_key_info_spec(),
{
    let v: Vec<u8> = vec![101u8, 110u8, 99u8, 95u8, 107u8, 101u8, 121u8];
    proof {
        assert(v@ =~= enc_key_info_spec());
    }
    v
}

fn enc_nonce_info() -> (r: Vec<u8>)
    ensures
        r@ == enc_nonce_info_spec(),
{
    let v: Vec<u8> = vec![101u8, 110u8, 99u8, 95u8, 110u8, 111u8, 110u8, 99u8, 101u8];
    proof {
        assert(v@ =~= enc_nonce_info_spec());
    }
    v
}

/// Encrypt a serialized state under a password: key and nonce are
/// derived from the password by HKDF, the 16-byte container header is
/// bound as associated data and prepended to the AEAD output.
/// Decrypting the result under the same password recovers the state.
pub fn encrypt_state(
    state_json: &[u8],
    password: &[u8],
    cipher: Option<crate::crypto::ChaCha20Poly1305Cipher>,
) -> (r: Vec<u8>)
    requires
        state_json@.len() <= 0xFFFF_FFFF,
    ensures
        r@.len() == state_json@.len() + 32,
        r@.subrange(0, 16) == enc_header_spec(),
        r@.skip(16) == aead_enc_of(
            state_enc_key_spec(password@),
            state_enc_nonce_spec(password@),
            state_json@,
            enc_header_spec(),
        ),
        aead_dec_of(
            state_enc_key_spec(password@),
            state_enc_nonce_spec(password@),
            r@.skip(16),
            enc_header_spec(),
        ) == Some(state_json@),
{
    let _ = cipher;
    let salt = enc_salt();
    let key = hkdf(password, salt.as_slice(), enc_key_info().as_slice(), 32);
    let nonce = hkdf(password, salt.as_slice(), enc_nonce_info().as_slice(), 12);
    let header = enc_header();
    let ciphertext = aead_encrypt(
        key.as_slice(),
        nonce.as_slice(),
        state_json,
        header.as_slice(),
    );
    let mut out = header;
    out.extend_from_slice(ciphertext.as_slice());
    proof {
        assert(out@.subrange(0, 16) =~= enc_header_spec());
        assert(out@.skip(16) =~= ciphertext@);
    }
    out
}

/// Decrypt a state container under a password. The blob must open
/// with the 16-byte header, else `StateDecryptionFailed`; the AEAD
/// must then authenticate under the password-derived key, else
/// `InvalidPassword`; on success the recovered serialized state is
/// returned.
pub fn decrypt_state(
    blob: &[u8],
    password: &[u8],
    cipher: Option<crate::crypto::ChaCha20Poly1305Cipher>,
) -> (r: Result<Vec<u8>, PQFSRError>)
    ensures
        match r {
            Ok(pt) => blob@.len() >= 16 && blob@.subrange(0, 16) == enc_header_spec()
                && aead_dec_of(
                state_enc_key_spec(password@),
                state_enc_nonce_spec(password@),
                blob@.skip(16),
                enc_header_spec(),
            ) == Some(pt@),
            Err(e) => {
                ||| (e == PQFSRError::StateDecryptionFailed && (blob@.len() < 16 || blob@.subrange(
                    0,
                    16,
                ) != enc_header_spec()))
                ||| (e == PQFSRError::InvalidPassword && blob@.len() >= 16 && blob@.subrange(0, 16)
                    == enc_header_spec() && aead_dec_of(
                    state_enc_key_spec(password@),
                    state_enc_nonce_spec(password@),
                    blob@.skip(16),
                    enc_header_spec(),
                ) is None)
            },
        },
{
    let _ = cipher;
    if blob.len() < 16 {
        return Err(PQFSRError::StateDecryptionFailed);
    }
    let header = enc_header();
    let blob_header = copy_range(blob, 0, 16);
    if !crate::crypto::constant_time_eq(blob_header.as_slice(), header.as_slice()) {
        return Err(PQFSRError::StateDecryptionFailed);
    }
    let salt = enc_salt();
    let key = hkdf(password, salt.as_slice(), enc_key_info().as_slice(), 32);
    let nonce = hkdf(password, salt.as_slice(), enc_nonce_info().as_slice(), 12);
    let ciphertext = copy_range(blob, 16, blob.len());
    proof {
        assert(ciphertext@ =~= blob@.skip(16));
    }
    match aead_decrypt(key.as_slice(), nonce.as_slice(), ciphertext.as_slice(), header.as_slice())
    {
        Ok(pt) => Ok(pt),
        Err(_) => Err(PQFSRError::InvalidPassword),
    }
}

} // verus!
