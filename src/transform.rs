//! The in-place rewrite that turns a received segment into a reply.
use vstd::prelude::*;
use crate::packet::{
    Layout, layout_of, same_layout_bytes, lemma_layout_wf, lemma_layout_kept, lemma_be32_set, be32, set_be32, ETH_DST_OFF,
    ETH_SRC_OFF, ETH_HDR_LEN, IP_SRC_OFF, IP_DST_OFF, TCP_SPORT_OFF, TCP_DPORT_OFF, TCP_SEQ_OFF,
    TCP_ACK_OFF, TCP_FLAGS_OFF, read_be32, write_be32,
};

verus! {

/// TCP flag bits.
pub const TCP_FIN: u8 = 0x01;
pub const TCP_SYN: u8 = 0x02;
pub const TCP_RST: u8 = 0x04;
pub const TCP_ACK: u8 = 0x10;

/// Length of a MAC address.
pub const MAC_LEN: usize = 6;

/// Length of an IPv4 address.
pub const IPV4_ADDR_LEN: usize = 4;

/// Length of a TCP port.
pub const PORT_LEN: usize = 2;

/// `p` with the `n` bytes at `a` and the `n` bytes at `b` exchanged.
pub open spec fn swap_spans(p: Seq<u8>, a: int, b: int, n: int) -> Seq<u8> {
    Seq::new(
        p.len(),
        |i: int|
            if a <= i < a + n {
                p[i - a + b]
            } else if b <= i < b + n {
                p[i - b + a]
            } else {
                p[i]
            },
    )
}

/// `p` with `new` written at `off`.
pub open spec fn put_bytes(p: Seq<u8>, off: int, new: Seq<u8>) -> Seq<u8> {
    Seq::new(p.len(), |i: int| if off <= i < off + new.len() { new[i - off] } else { p[i] })
}

/// `p` with its MAC addresses exchanged.
pub open spec fn macs_swapped(p: Seq<u8>) -> Seq<u8> {
    swap_spans(p, ETH_DST_OFF as int, ETH_SRC_OFF as int, MAC_LEN as int)
}

/// `p` with its IPv4 addresses exchanged.
pub open spec fn ipv4addrs_swapped(p: Seq<u8>) -> Seq<u8> {
    swap_spans(p, IP_SRC_OFF as int, IP_DST_OFF as int, IPV4_ADDR_LEN as int)
}

/// `p` with its TCP ports exchanged.
pub open spec fn ports_swapped(p: Seq<u8>, l: Layout) -> Seq<u8> {
    swap_spans(p, l.tcp_off() + TCP_SPORT_OFF, l.tcp_off() + TCP_DPORT_OFF, PORT_LEN as int)
}

/// `p` with its payload replaced by `new`.
pub open spec fn payload_replaced(p: Seq<u8>, l: Layout, new: Seq<u8>) -> Seq<u8> {
    put_bytes(p, l.payload_off(), new)
}

/// Whether the flag bit `bit` is set in the flags byte `f`.
pub open spec fn has_flag(f: u8, bit: u8) -> bool {
    f & bit != 0
}

/// The TCP flags byte of `p`.
pub open spec fn flags_of(p: Seq<u8>, l: Layout) -> u8 {
    p[l.tcp_off() + TCP_FLAGS_OFF]
}

/// The sequence numbers that a segment of `p` consumes: its payload, plus one
/// each for SYN and FIN.
pub open spec fn consumed(p: Seq<u8>, l: Layout) -> nat {
    (l.payload_len() + (if has_flag(flags_of(p, l), TCP_SYN) { 1int } else { 0 }) + (if has_flag(
        flags_of(p, l),
        TCP_FIN,
    ) {
        1int
    } else {
        0
    })) as nat
}

/// The acknowledgment number of the reply to `p`: its sequence number advanced
/// by what it consumed, on the 32-bit ring.
pub open spec fn reply_ack(p: Seq<u8>, l: Layout) -> nat {
    (be32(p, l.tcp_off() + TCP_SEQ_OFF) + consumed(p, l)) % 0x1_0000_0000
}

/// `p` with its acknowledgment number as sequence number and the reply's
/// acknowledgment number.
pub open spec fn seq_ack_rewritten(p: Seq<u8>, l: Layout) -> Seq<u8> {
    set_be32(
        set_be32(p, l.tcp_off() + TCP_SEQ_OFF, be32(p, l.tcp_off() + TCP_ACK_OFF)),
        l.tcp_off() + TCP_ACK_OFF,
        reply_ack(p, l),
    )
}

/// A flags byte with SYN, FIN and RST cleared and ACK set.
pub open spec fn reply_flags(f: u8) -> u8 {
    (f & !(TCP_SYN | TCP_FIN | TCP_RST)) | TCP_ACK
}

/// `p` with the reply's flags.
pub open spec fn flags_rewritten(p: Seq<u8>, l: Layout) -> Seq<u8> {
    p.update(l.tcp_off() + TCP_FLAGS_OFF, reply_flags(flags_of(p, l)))
}

/// Exchanges the `n` bytes at `a` with the `n` bytes at `b`.
fn swap_bytes(buf: &mut Vec<u8>, a: usize, b: usize, n: usize)
    requires
        a + n <= b,
        b + n <= old(buf)@.len(),
    ensures
        final(buf)@ == swap_spans(old(buf)@, a as int, b as int, n as int),
{
    let ghost p = buf@;
    let total = buf.len();
    let mut i: usize = 0;
    while i < n
        invariant
            total == p.len(),
            a + n <= b,
            b + n <= p.len(),
            i <= n,
            buf@.len() == p.len(),
            forall|j: int| a <= j < a + i ==> buf@[j] == p[j - a + b],
            forall|j: int| b <= j < b + i ==> buf@[j] == p[j - b + a],
            forall|j: int|
                0 <= j < p.len() && !(a <= j < a + i) && !(b <= j < b + i) ==> buf@[j] == p[j],
        decreases n - i,
    {
        let x = buf[a + i];
        let y = buf[b + i];
        buf[a + i] = y;
        buf[b + i] = x;
        i = i + 1;
    }
    assert(buf@ =~= swap_spans(p, a as int, b as int, n as int));
}

/// Exchanges the source and destination MAC addresses.
pub fn swap_macaddrs(buf: &mut Vec<u8>)
    requires
        old(buf)@.len() >= ETH_HDR_LEN,
    ensures
        final(buf)@ == macs_swapped(old(buf)@),
{
    swap_bytes(buf, ETH_DST_OFF, ETH_SRC_OFF, MAC_LEN);
}

/// Exchanges the source and destination IPv4 addresses.
pub fn swap_ipv4addrs(buf: &mut Vec<u8>)
    requires
        old(buf)@.len() >= IP_DST_OFF + IPV4_ADDR_LEN,
    ensures
        final(buf)@ == ipv4addrs_swapped(old(buf)@),
{
    swap_bytes(buf, IP_SRC_OFF, IP_DST_OFF, IPV4_ADDR_LEN);
}

/// Exchanges the source and destination TCP ports.
pub fn swap_ports(buf: &mut Vec<u8>, l: &Layout)
    requires
        layout_of(old(buf)@) == Some(*l),
    ensures
        final(buf)@ == ports_swapped(old(buf)@, *l),
        layout_of(final(buf)@) == Some(*l),
{
    proof {
        lemma_layout_wf(buf@);
    }
    let off = l.tcp_offset();
    swap_bytes(buf, off + TCP_SPORT_OFF, off + TCP_DPORT_OFF, PORT_LEN);
    proof {
        lemma_layout_kept(old(buf)@, buf@, *l);
    }
}

/// Overwrites the payload with `new`, which must be exactly as long as the
/// payload; otherwise nothing is written and `Err` is returned.
pub fn rewrite_payload(buf: &mut Vec<u8>, l: &Layout, new: &[u8]) -> (r: Result<(), ()>)
    requires
        layout_of(old(buf)@) == Some(*l),
    ensures
        r is Ok <==> new@.len() == l.payload_len(),
        r is Ok ==> final(buf)@ == payload_replaced(old(buf)@, *l, new@),
        r is Err ==> final(buf)@ == old(buf)@,
        layout_of(final(buf)@) == Some(*l),
{
    proof {
        lemma_layout_wf(buf@);
    }
    let payload_length = l.payload_length();
    if new.len() != payload_length {
        return Err(());
    }
    let off = l.payload_offset();
    let ghost p = buf@;
    let total = buf.len();
    let mut i: usize = 0;
    while i < payload_length
        invariant
            total == p.len(),
            off == l.payload_off(),
            payload_length == new@.len(),
            off + payload_length <= p.len(),
            layout_of(p) == Some(*l),
            l.wf(),
            l.tcp_off() + 20 <= l.payload_off(),
            i <= payload_length,
            buf@.len() == p.len(),
            forall|j: int| off <= j < off + i ==> buf@[j] == new@[j - off],
            forall|j: int| 0 <= j < p.len() && !(off <= j < off + i) ==> buf@[j] == p[j],
        decreases payload_length - i,
    {
        buf[off + i] = new[i];
        i = i + 1;
    }
    assert(buf@ =~= payload_replaced(p, *l, new@));
    proof {
        lemma_layout_kept(p, buf@, *l);
    }
    Ok(())
}

/// The sequence numbers that the segment in `buf` consumes.
fn consumed_by(buf: &Vec<u8>, l: &Layout) -> (r: u32)
    requires
        layout_of(buf@) == Some(*l),
    ensures
        r == consumed(buf@, *l),
{
    proof {
        lemma_layout_wf(buf@);
    }
    let flags = buf[l.tcp_offset() + TCP_FLAGS_OFF];
    let syn: u32 = if flags & TCP_SYN != 0 { 1 } else { 0 };
    let fin: u32 = if flags & TCP_FIN != 0 { 1 } else { 0 };
    l.payload_length() as u32 + syn + fin
}

/// Makes the acknowledgment number the sequence number, and acknowledges what
/// the received segment consumed.
pub fn rewrite_seq_ack(buf: &mut Vec<u8>, l: &Layout)
    requires
        layout_of(old(buf)@) == Some(*l),
    ensures
        final(buf)@ == seq_ack_rewritten(old(buf)@, *l),
        layout_of(final(buf)@) == Some(*l),
{
    proof {
        lemma_layout_wf(buf@);
    }
    let ghost p = buf@;
    let off = l.tcp_offset();
    let old_seq = read_be32(buf, off + TCP_SEQ_OFF);
    let old_ack = read_be32(buf, off + TCP_ACK_OFF);
    let inc = consumed_by(buf, l);
    let new_ack = old_seq.wrapping_add(inc);
    assert(new_ack == reply_ack(p, *l));
    write_be32(buf, off + TCP_SEQ_OFF, old_ack);
    let ghost q = buf@;
    write_be32(buf, off + TCP_ACK_OFF, new_ack);
    proof {
        lemma_be32_set(p, l.tcp_off() + TCP_SEQ_OFF, old_ack as nat);
        lemma_be32_set(q, l.tcp_off() + TCP_ACK_OFF, new_ack as nat);
        assert(same_layout_bytes(p, q, *l));
        lemma_layout_kept(p, q, *l);
        assert(same_layout_bytes(q, buf@, *l));
        lemma_layout_kept(q, buf@, *l);
    }
}

/// Clears SYN, FIN and RST and sets ACK.
pub fn rewrite_flags(buf: &mut Vec<u8>, l: &Layout)
    requires
        layout_of(old(buf)@) == Some(*l),
    ensures
        final(buf)@ == flags_rewritten(old(buf)@, *l),
        layout_of(final(buf)@) == Some(*l),
{
    proof {
        lemma_layout_wf(buf@);
    }
    let off = l.tcp_offset() + TCP_FLAGS_OFF;
    let f = buf[off];
    buf[off] = (f & !(TCP_SYN | TCP_FIN | TCP_RST)) | TCP_ACK;
    proof {
        lemma_layout_kept(old(buf)@, buf@, *l);
    }
}

} // verus!
