//! What holds of the engine on every frame.
use vstd::prelude::*;
use crate::packet::{
    Layout, layout_of, same_layout_bytes, lemma_layout_wf, lemma_layout_kept, lemma_be16_set,
    lemma_be32_set, be16, be32, set_be32, ETH_HDR_LEN, IPV4_HDR_LEN, TCP_HDR_LEN,
    IP_CSUM_OFF, TCP_SPORT_OFF, TCP_DPORT_OFF, TCP_SEQ_OFF, TCP_ACK_OFF, TCP_FLAGS_OFF,
    TCP_CSUM_OFF,
};
use crate::transform::{
    macs_swapped, ipv4addrs_swapped, ports_swapped, payload_replaced, seq_ack_rewritten,
    flags_rewritten, reply_flags, flags_of, has_flag, reply_ack, TCP_SYN, TCP_FIN, TCP_RST,
    TCP_ACK,
};
use crate::frame_csum::{
    ipv4_csum_fixed, tcp_csum_fixed, ipv4_checksum, tcp_checksum, ipv4_checksum_valid,
    tcp_checksum_valid, lemma_ipv4_csum_fixed_valid, lemma_tcp_csum_fixed_valid,
};
use crate::engine::{
    Config, MatchMode, Verdict, is_trigger, verdict_of, packet_after, reply_of, payload_matches,
    };

verus! {

/// A well-formed frame from any port but the trigger port passes, unchanged.
pub proof fn lemma_other_port_passes(cfg: Config, p: Seq<u8>)
    requires
        layout_of(p) is Some,
        be16(p, layout_of(p).unwrap().tcp_off() + TCP_SPORT_OFF) != cfg.trigger_port,
    ensures
        verdict_of(cfg, p) == Verdict::Pass,
        packet_after(cfg, p) == p,
{
}

/// Under a full match, a well-formed frame from the trigger port whose payload
/// differs from the signature in at least one byte passes, unchanged.
pub proof fn lemma_mismatch_passes(cfg: Config, p: Seq<u8>)
    requires
        cfg.match_mode == MatchMode::Full,
        layout_of(p) is Some,
        be16(p, layout_of(p).unwrap().tcp_off() + TCP_SPORT_OFF) == cfg.trigger_port,
        exists|i: int|
            0 <= i < cfg.signature@.len() && (layout_of(p).unwrap().payload_off() + i >= p.len()
                || p[layout_of(p).unwrap().payload_off() + i] != cfg.signature@[i]),
    ensures
        verdict_of(cfg, p) == Verdict::Pass,
        packet_after(cfg, p) == p,
{
    let l = layout_of(p).unwrap();
    let off = l.payload_off();
    let sig = cfg.signature@;
    let i = choose|i: int|
        0 <= i < sig.len() && (off + i >= p.len() || p[off + i] != sig[i]);
    if off + sig.len() <= p.len() {
        assert(p.subrange(off, off + sig.len())[i] != sig[i]);
    }
    assert(!payload_matches(p, off, sig, cfg.match_mode));
}

/// A frame too short for its headers, or too short to hold the signature after
/// them, is never transmitted and is left unchanged.
pub proof fn lemma_truncated_not_sent(cfg: Config, p: Seq<u8>)
    requires
        p.len() < ETH_HDR_LEN + IPV4_HDR_LEN + TCP_HDR_LEN || (layout_of(p) is Some && p.len()
            < layout_of(p).unwrap().payload_off() + cfg.signature@.len()),
    ensures
        verdict_of(cfg, p) != Verdict::Transmit,
        packet_after(cfg, p) == p,
{
    if layout_of(p) is Some {
        lemma_layout_wf(p);
    }
}

/// A frame that is not a trigger segment passes unchanged, so processing it
/// again gives the same frame and the same verdict.
pub proof fn lemma_non_trigger_idempotent(cfg: Config, p: Seq<u8>)
    requires
        !is_trigger(cfg, p),
    ensures
        verdict_of(cfg, p) == Verdict::Pass,
        packet_after(cfg, p) == p,
        verdict_of(cfg, packet_after(cfg, p)) == verdict_of(cfg, p),
        packet_after(cfg, packet_after(cfg, p)) == packet_after(cfg, p),
{
}

/// Whatever the verdict, processing leaves a frame that the engine does not
/// transmit unchanged, so a second pass agrees with the first.
pub proof fn lemma_untransmitted_idempotent(cfg: Config, p: Seq<u8>)
    requires
        verdict_of(cfg, p) != Verdict::Transmit,
    ensures
        packet_after(cfg, p) == p,
        verdict_of(cfg, packet_after(cfg, p)) == verdict_of(cfg, p),
        packet_after(cfg, packet_after(cfg, p)) == packet_after(cfg, p),
{
}

proof fn lemma_reply_flag_bits(f: u8)
    ensures
        reply_flags(f) & TCP_SYN == 0,
        reply_flags(f) & TCP_FIN == 0,
        reply_flags(f) & TCP_RST == 0,
        reply_flags(f) & TCP_ACK != 0,
{
    assert((((f & !(2u8 | 1u8 | 4u8)) | 16u8) & 2u8) == 0) by (bit_vector);
    assert((((f & !(2u8 | 1u8 | 4u8)) | 16u8) & 1u8) == 0) by (bit_vector);
    assert((((f & !(2u8 | 1u8 | 4u8)) | 16u8) & 4u8) == 0) by (bit_vector);
    assert((((f & !(2u8 | 1u8 | 4u8)) | 16u8) & 16u8) != 0) by (bit_vector);
}

/// The stages of the reply of `p`, each kept by the ones after it except where
/// they write.
proof fn lemma_stages(cfg: Config, p: Seq<u8>, l: Layout)
    requires
        layout_of(p) == Some(l),
        cfg.replacement@.len() == l.payload_len(),
    ensures
        ({
            let s_macs = macs_swapped(p);
            let s_addrs = ipv4addrs_swapped(s_macs);
            let s_ports = ports_swapped(s_addrs, l);
            let s_payload = payload_replaced(s_ports, l, cfg.replacement@);
            let s_seq_ack = seq_ack_rewritten(s_payload, l);
            let s_flags = flags_rewritten(s_seq_ack, l);
            let s_ip_csum = ipv4_csum_fixed(s_flags, l);
            let q = tcp_csum_fixed(s_ip_csum, l);
            &&& q == reply_of(cfg, p, l)
            &&& layout_of(s_payload) == Some(l)
            &&& layout_of(s_seq_ack) == Some(l)
            &&& layout_of(s_flags) == Some(l)
            &&& layout_of(s_ip_csum) == Some(l)
            &&& layout_of(q) == Some(l)
            &&& s_payload.len() == p.len()
            &&& q.len() == p.len()
            &&& forall|i: int|
                0 <= i < p.len() && i != IP_CSUM_OFF && i != IP_CSUM_OFF + 1 && !(l.tcp_off()
                    + TCP_SEQ_OFF <= i < l.tcp_off() + TCP_FLAGS_OFF + 1) && i != l.tcp_off()
                    + TCP_CSUM_OFF && i != l.tcp_off() + TCP_CSUM_OFF + 1 ==> q[i] == s_payload[i]
            &&& be32(q, l.tcp_off() + TCP_SEQ_OFF) == be32(s_seq_ack, l.tcp_off() + TCP_SEQ_OFF)
            &&& be32(q, l.tcp_off() + TCP_ACK_OFF) == be32(s_seq_ack, l.tcp_off() + TCP_ACK_OFF)
            &&& flags_of(q, l) == flags_of(s_flags, l)
        }),
{
    lemma_layout_wf(p);
    let t = l.tcp_off();
    let s_macs = macs_swapped(p);
    let s_addrs = ipv4addrs_swapped(s_macs);
    let s_ports = ports_swapped(s_addrs, l);
    let s_payload = payload_replaced(s_ports, l, cfg.replacement@);
    let s_seq_ack = seq_ack_rewritten(s_payload, l);
    let s_flags = flags_rewritten(s_seq_ack, l);
    let s_ip_csum = ipv4_csum_fixed(s_flags, l);
    let q = tcp_csum_fixed(s_ip_csum, l);
    lemma_layout_kept(p, s_macs, l);
    lemma_layout_kept(s_macs, s_addrs, l);
    lemma_layout_kept(s_addrs, s_ports, l);
    lemma_layout_kept(s_ports, s_payload, l);
    let s_seq = set_be32(s_payload, t + TCP_SEQ_OFF, be32(s_payload, t + TCP_ACK_OFF));
    lemma_be32_set(s_payload, t + TCP_SEQ_OFF, be32(s_payload, t + TCP_ACK_OFF));
    lemma_be32_set(s_seq, t + TCP_ACK_OFF, reply_ack(s_payload, l));
    assert(same_layout_bytes(s_payload, s_seq_ack, l));
    lemma_layout_kept(s_payload, s_seq_ack, l);
    lemma_layout_kept(s_seq_ack, s_flags, l);
    lemma_be16_set(s_flags, IP_CSUM_OFF as int, ipv4_checksum(s_flags, l));
    assert(same_layout_bytes(s_flags, s_ip_csum, l));
    lemma_layout_kept(s_flags, s_ip_csum, l);
    lemma_be16_set(s_ip_csum, t + TCP_CSUM_OFF, tcp_checksum(s_ip_csum, l));
    lemma_tcp_csum_fixed_valid(s_ip_csum, l);
}

/// The reflected headers of `p`: addresses and ports exchanged.
spec fn reflected(p: Seq<u8>, l: Layout) -> Seq<u8> {
    ports_swapped(ipv4addrs_swapped(macs_swapped(p)), l)
}

/// Up to the TCP sequence number, the reply differs from the reflected frame
/// only in the IPv4 header checksum.
proof fn lemma_reply_prefix(cfg: Config, p: Seq<u8>, l: Layout)
    requires
        layout_of(p) == Some(l),
        cfg.replacement@.len() == l.payload_len(),
    ensures
        reflected(p, l).len() == p.len(),
        forall|i: int|
            0 <= i < l.tcp_off() + TCP_SEQ_OFF && i != IP_CSUM_OFF && i != IP_CSUM_OFF + 1
                ==> #[trigger] reply_of(cfg, p, l)[i] == reflected(p, l)[i],
{
    lemma_layout_wf(p);
    lemma_stages(cfg, p, l);
    let s_payload = payload_replaced(reflected(p, l), l, cfg.replacement@);
    assert forall|i: int|
        0 <= i < l.tcp_off() + TCP_SEQ_OFF && i != IP_CSUM_OFF && i != IP_CSUM_OFF
            + 1 implies #[trigger] reply_of(cfg, p, l)[i] == reflected(p, l)[i] by {
        assert(reply_of(cfg, p, l)[i] == s_payload[i]);
    }
}

proof fn lemma_reply_addresses(cfg: Config, p: Seq<u8>, l: Layout)
    requires
        layout_of(p) == Some(l),
        cfg.replacement@.len() == l.payload_len(),
    ensures
        ({
            let q = reply_of(cfg, p, l);
            &&& q.subrange(0, 6) == p.subrange(6, 12)
            &&& q.subrange(6, 12) == p.subrange(0, 6)
            &&& q.subrange(26, 30) == p.subrange(30, 34)
            &&& q.subrange(30, 34) == p.subrange(26, 30)
            &&& be16(q, l.tcp_off() + TCP_SPORT_OFF) == be16(p, l.tcp_off() + TCP_DPORT_OFF)
            &&& be16(q, l.tcp_off() + TCP_DPORT_OFF) == be16(p, l.tcp_off() + TCP_SPORT_OFF)
        }),
{
    lemma_layout_wf(p);
    lemma_reply_prefix(cfg, p, l);
    let t = l.tcp_off();
    let q = reply_of(cfg, p, l);
    let r = reflected(p, l);
    assert(q.subrange(0, 6) =~= p.subrange(6, 12)) by {
        assert forall|i: int| 0 <= i < 6 implies #[trigger] q[i] == p[i + 6] by {
            assert(q[i] == r[i]);
        }
    }
    assert(q.subrange(6, 12) =~= p.subrange(0, 6)) by {
        assert forall|i: int| 6 <= i < 12 implies #[trigger] q[i] == p[i - 6] by {
            assert(q[i] == r[i]);
        }
    }
    assert(q.subrange(26, 30) =~= p.subrange(30, 34)) by {
        assert forall|i: int| 26 <= i < 30 implies #[trigger] q[i] == p[i + 4] by {
            assert(q[i] == r[i]);
        }
    }
    assert(q.subrange(30, 34) =~= p.subrange(26, 30)) by {
        assert forall|i: int| 30 <= i < 34 implies #[trigger] q[i] == p[i - 4] by {
            assert(q[i] == r[i]);
        }
    }
    assert(q[t] == r[t] && q[t + 1] == r[t + 1] && q[t + 2] == r[t + 2] && q[t + 3] == r[t + 3]);
}

proof fn lemma_reply_payload(cfg: Config, p: Seq<u8>, l: Layout)
    requires
        layout_of(p) == Some(l),
        cfg.replacement@.len() == l.payload_len(),
    ensures
        l.payload(reply_of(cfg, p, l)) == cfg.replacement@,
{
    lemma_layout_wf(p);
    lemma_stages(cfg, p, l);
    assert(l.payload(reply_of(cfg, p, l)) =~= cfg.replacement@);
}

proof fn lemma_reply_seq_ack(cfg: Config, p: Seq<u8>, l: Layout)
    requires
        layout_of(p) == Some(l),
        cfg.replacement@.len() == l.payload_len(),
    ensures
        be32(reply_of(cfg, p, l), l.tcp_off() + TCP_SEQ_OFF) == be32(p, l.tcp_off() + TCP_ACK_OFF),
        be32(reply_of(cfg, p, l), l.tcp_off() + TCP_ACK_OFF) == reply_ack(p, l),
{
    lemma_layout_wf(p);
    lemma_stages(cfg, p, l);
    let t = l.tcp_off();
    let s_payload = payload_replaced(
        ports_swapped(ipv4addrs_swapped(macs_swapped(p)), l),
        l,
        cfg.replacement@,
    );
    let s_seq = set_be32(s_payload, t + TCP_SEQ_OFF, be32(s_payload, t + TCP_ACK_OFF));
    lemma_be32_set(s_payload, t + TCP_SEQ_OFF, be32(s_payload, t + TCP_ACK_OFF));
    lemma_be32_set(s_seq, t + TCP_ACK_OFF, reply_ack(s_payload, l));
    assert(be32(s_payload, t + TCP_ACK_OFF) == be32(p, t + TCP_ACK_OFF));
    assert(be32(s_payload, t + TCP_SEQ_OFF) == be32(p, t + TCP_SEQ_OFF));
    assert(flags_of(s_payload, l) == flags_of(p, l));
    assert(reply_ack(s_payload, l) == reply_ack(p, l));
}

proof fn lemma_reply_flags(cfg: Config, p: Seq<u8>, l: Layout)
    requires
        layout_of(p) == Some(l),
        cfg.replacement@.len() == l.payload_len(),
    ensures
        !has_flag(flags_of(reply_of(cfg, p, l), l), TCP_SYN),
        !has_flag(flags_of(reply_of(cfg, p, l), l), TCP_FIN),
        !has_flag(flags_of(reply_of(cfg, p, l), l), TCP_RST),
        has_flag(flags_of(reply_of(cfg, p, l), l), TCP_ACK),
{
    lemma_layout_wf(p);
    lemma_stages(cfg, p, l);
    let s_seq_ack = seq_ack_rewritten(
        payload_replaced(ports_swapped(ipv4addrs_swapped(macs_swapped(p)), l), l, cfg.replacement@),
        l,
    );
    lemma_reply_flag_bits(flags_of(s_seq_ack, l));
}

/// `q` is the reply to `p` in every field that the rewrite sets: MAC
/// addresses, IPv4 addresses and TCP ports exchanged; the payload replaced; the
/// original acknowledgment number as sequence number; the original sequence
/// number advanced by the payload length and one each for SYN and FIN, modulo
/// 2^32, as acknowledgment number; SYN, FIN and RST clear and ACK set.
pub open spec fn is_reply_to(cfg: Config, p: Seq<u8>, q: Seq<u8>, l: Layout) -> bool {
    let t = l.tcp_off();
    &&& q.len() == p.len()
    &&& layout_of(q) == Some(l)
    &&& q.subrange(0, 6) == p.subrange(6, 12)
    &&& q.subrange(6, 12) == p.subrange(0, 6)
    &&& q.subrange(26, 30) == p.subrange(30, 34)
    &&& q.subrange(30, 34) == p.subrange(26, 30)
    &&& be16(q, t + TCP_SPORT_OFF) == be16(p, t + TCP_DPORT_OFF)
    &&& be16(q, t + TCP_DPORT_OFF) == be16(p, t + TCP_SPORT_OFF)
    &&& l.payload(q) == cfg.replacement@
    &&& be32(q, t + TCP_SEQ_OFF) == be32(p, t + TCP_ACK_OFF)
    &&& be32(q, t + TCP_ACK_OFF) == (be32(p, t + TCP_SEQ_OFF) + l.payload_len() + (if has_flag(
        flags_of(p, l),
        TCP_SYN,
    ) {
        1int
    } else {
        0
    }) + (if has_flag(flags_of(p, l), TCP_FIN) {
        1int
    } else {
        0
    })) % 0x1_0000_0000
    &&& !has_flag(flags_of(q, l), TCP_SYN)
    &&& !has_flag(flags_of(q, l), TCP_FIN)
    &&& !has_flag(flags_of(q, l), TCP_RST)
    &&& has_flag(flags_of(q, l), TCP_ACK)
}

proof fn lemma_reply_of_is_reply(cfg: Config, p: Seq<u8>, l: Layout)
    requires
        layout_of(p) == Some(l),
        cfg.replacement@.len() == l.payload_len(),
    ensures
        is_reply_to(cfg, p, reply_of(cfg, p, l), l),
{
    lemma_layout_wf(p);
    lemma_reply_shape(cfg, p, l);
    lemma_reply_addresses(cfg, p, l);
    lemma_reply_payload(cfg, p, l);
    lemma_reply_seq_ack(cfg, p, l);
    lemma_reply_flags(cfg, p, l);
}

/// A trigger segment whose payload is as long as the signature, under a
/// configuration whose replacement is as long as the signature, is transmitted,
/// and what is sent is its reply: addresses and ports exchanged, the payload
/// replaced, sequence and acknowledgment numbers and flags of a reply.
pub proof fn lemma_reply_fields(cfg: Config, p: Seq<u8>)
    requires
        is_trigger(cfg, p),
        cfg.replacement@.len() == cfg.signature@.len(),
        layout_of(p).unwrap().payload_len() == cfg.signature@.len(),
    ensures
        verdict_of(cfg, p) == Verdict::Transmit,
        is_reply_to(cfg, p, packet_after(cfg, p), layout_of(p).unwrap()),
{
    let l = layout_of(p).unwrap();
    assert(packet_after(cfg, p) == reply_of(cfg, p, l));
    lemma_reply_of_is_reply(cfg, p, l);
}

proof fn lemma_reply_shape(cfg: Config, p: Seq<u8>, l: Layout)
    requires
        layout_of(p) == Some(l),
        cfg.replacement@.len() == l.payload_len(),
    ensures
        reply_of(cfg, p, l).len() == p.len(),
        layout_of(reply_of(cfg, p, l)) == Some(l),
{
    lemma_stages(cfg, p, l);
}

/// A trigger segment whose payload is as long as the signature, under a
/// configuration whose replacement is as long as the signature, is transmitted,
/// and its reply carries a valid IPv4 header checksum and a
/// valid TCP checksum, whether its segment length is even or odd.
pub proof fn lemma_reply_checksums_valid(cfg: Config, p: Seq<u8>)
    requires
        is_trigger(cfg, p),
        cfg.replacement@.len() == cfg.signature@.len(),
        layout_of(p).unwrap().payload_len() == cfg.signature@.len(),
    ensures
        verdict_of(cfg, p) == Verdict::Transmit,
        ipv4_checksum_valid(packet_after(cfg, p), layout_of(p).unwrap()),
        tcp_checksum_valid(packet_after(cfg, p), layout_of(p).unwrap()),
{
    let l = layout_of(p).unwrap();
    lemma_stages(cfg, p, l);
    let s_macs = macs_swapped(p);
    let s_addrs = ipv4addrs_swapped(s_macs);
    let s_ports = ports_swapped(s_addrs, l);
    let s_payload = payload_replaced(s_ports, l, cfg.replacement@);
    let s_seq_ack = seq_ack_rewritten(s_payload, l);
    let s_flags = flags_rewritten(s_seq_ack, l);
    let s_ip_csum = ipv4_csum_fixed(s_flags, l);
    lemma_ipv4_csum_fixed_valid(s_flags, l);
    lemma_tcp_csum_fixed_valid(s_ip_csum, l);
}

} // verus!
