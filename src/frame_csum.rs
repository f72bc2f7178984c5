//! The IPv4 header checksum and the TCP checksum of a frame.
use vstd::prelude::*;
use crate::checksum::{
    ones_sum, words_sum, word_at, word_count, checksum_of, sum_is_valid, add_carry, fold_csum,
    sum_words, lemma_ones_sum_basics, lemma_ones_sum_add, lemma_words_sum_one_word,
    lemma_checksum_completes,
};
use crate::packet::{
    Layout, layout_of, lemma_layout_wf, lemma_layout_kept, be16, set_be16,
    read_be16, write_be16, ETH_HDR_LEN, IP_CSUM_OFF, IP_SRC_OFF, IP_DST_OFF, IP_TOT_LEN_OFF,
    IP_VIHL_OFF, IPPROTO_TCP, TCP_CSUM_OFF,
};

verus! {

/// The plain sum of the TCP pseudo-header: both addresses, the protocol and
/// the segment length.
pub open spec fn pseudo_sum(p: Seq<u8>, l: Layout) -> nat {
    (be16(p, IP_SRC_OFF as int) + be16(p, IP_SRC_OFF + 2) + be16(p, IP_DST_OFF as int) + be16(
        p,
        IP_DST_OFF + 2,
    ) + IPPROTO_TCP + l.segment_len()) as nat
}

/// The IPv4 header checksum of `p`: computed over its header with the checksum field zeroed.
pub open spec fn ipv4_checksum(p: Seq<u8>, l: Layout) -> nat {
    checksum_of(words_sum(l.ip_header(set_be16(p, IP_CSUM_OFF as int, 0))))
}

/// The TCP checksum of `p`: computed over the pseudo-header and the segment
/// with the checksum field zeroed.
pub open spec fn tcp_checksum(p: Seq<u8>, l: Layout) -> nat {
    checksum_of(
        pseudo_sum(p, l) + words_sum(l.segment(set_be16(p, l.tcp_off() + TCP_CSUM_OFF, 0))),
    )
}

/// `p` with its IPv4 header checksum recomputed.
pub open spec fn ipv4_csum_fixed(p: Seq<u8>, l: Layout) -> Seq<u8> {
    set_be16(p, IP_CSUM_OFF as int, ipv4_checksum(p, l))
}

/// `p` with its TCP checksum recomputed.
pub open spec fn tcp_csum_fixed(p: Seq<u8>, l: Layout) -> Seq<u8> {
    set_be16(p, l.tcp_off() + TCP_CSUM_OFF, tcp_checksum(p, l))
}

/// The IPv4 header of `p`, its checksum field included, sums to all ones.
pub open spec fn ipv4_checksum_valid(p: Seq<u8>, l: Layout) -> bool {
    sum_is_valid(words_sum(l.ip_header(p)))
}

/// The pseudo-header and the TCP segment of `p`, its checksum field included,
/// sum to all ones.
pub open spec fn tcp_checksum_valid(p: Seq<u8>, l: Layout) -> bool {
    sum_is_valid(pseudo_sum(p, l) + words_sum(l.segment(p)))
}

/// Sums the pseudo-header in one's-complement form.
fn get_pseudo_header(buf: &Vec<u8>, l: &Layout) -> (r: u32)
    requires
        layout_of(buf@) == Some(*l),
    ensures
        r == ones_sum(pseudo_sum(buf@, *l)),
        r <= 0xffff,
{
    proof {
        lemma_layout_wf(buf@);
    }
    let ghost p = buf@;
    let src_hi = read_be16(buf, IP_SRC_OFF);
    let src_lo = read_be16(buf, IP_SRC_OFF + 2);
    let dst_hi = read_be16(buf, IP_DST_OFF);
    let dst_lo = read_be16(buf, IP_DST_OFF + 2);
    let proto = IPPROTO_TCP as u16;
    let tcp_len = get_tcp_length(buf, l);
    proof {
        let a = src_hi as nat;
        let b = a + src_lo as nat;
        let c = b + dst_hi as nat;
        let d = c + dst_lo as nat;
        let e = d + proto as nat;
        lemma_add_word(0, a);
        lemma_add_word(a, src_lo as nat);
        lemma_add_word(b, dst_hi as nat);
        lemma_add_word(c, dst_lo as nat);
        lemma_add_word(d, proto as nat);
        lemma_add_word(e, tcp_len as nat);
    }
    let sum = add_carry(0, src_hi);
    let sum = add_carry(sum, src_lo);
    let sum = add_carry(sum, dst_hi);
    let sum = add_carry(sum, dst_lo);
    let sum = add_carry(sum, proto);
    add_carry(sum, tcp_len)
}

/// Adding a word to a one's-complement sum is adding it to the plain sum.
proof fn lemma_add_word(acc: nat, w: nat)
    requires
        w <= 0xffff,
    ensures
        ones_sum(ones_sum(acc) + w) == ones_sum(acc + w),
        ones_sum(acc) <= 0xffff,
{
    lemma_ones_sum_basics(acc);
    lemma_ones_sum_basics(w);
    lemma_ones_sum_add(acc, w);
}

/// The length of the TCP segment: the IPv4 total length less the IPv4 header length.
fn get_tcp_length(buf: &Vec<u8>, l: &Layout) -> (r: u16)
    requires
        layout_of(buf@) == Some(*l),
    ensures
        r == l.segment_len(),
{
    let tot_len = read_be16(buf, IP_TOT_LEN_OFF);
    let ihl = (buf[IP_VIHL_OFF] % 16) as u16 * 4;
    tot_len - ihl
}

/// Sums the TCP segment in one's-complement form.
fn get_tcp_csum(buf: &Vec<u8>, l: &Layout) -> (r: u32)
    requires
        layout_of(buf@) == Some(*l),
    ensures
        r == ones_sum(words_sum(l.segment(buf@))),
        r <= 0xffff,
{
    proof {
        lemma_layout_wf(buf@);
    }
    sum_words(buf, l.tcp_offset(), get_tcp_length(buf, l) as usize)
}

/// Recomputes the IPv4 header checksum.
pub fn recalc_ipv4_csum(buf: &mut Vec<u8>, l: &Layout)
    requires
        layout_of(old(buf)@) == Some(*l),
    ensures
        final(buf)@ == ipv4_csum_fixed(old(buf)@, *l),
        layout_of(final(buf)@) == Some(*l),
{
    proof {
        lemma_layout_wf(buf@);
    }
    let ghost p = buf@;
    write_be16(buf, IP_CSUM_OFF, 0);
    let sum = sum_words(buf, ETH_HDR_LEN, l.ip_hdr_len);
    proof {
        lemma_ones_sum_basics(words_sum(l.ip_header(buf@)));
    }
    let c = fold_csum(sum);
    write_be16(buf, IP_CSUM_OFF, c);
    proof {
        assert(buf@ =~= ipv4_csum_fixed(p, *l));
        lemma_layout_kept(p, buf@, *l);
    }
}

/// Recomputes the TCP checksum over the pseudo-header and the segment.
pub fn recalc_tcp_csum(buf: &mut Vec<u8>, l: &Layout)
    requires
        layout_of(old(buf)@) == Some(*l),
    ensures
        final(buf)@ == tcp_csum_fixed(old(buf)@, *l),
        layout_of(final(buf)@) == Some(*l),
{
    proof {
        lemma_layout_wf(buf@);
    }
    let ghost p = buf@;
    let off = l.tcp_offset() + TCP_CSUM_OFF;
    write_be16(buf, off, 0);
    proof {
        lemma_layout_kept(p, buf@, *l);
    }
    let pseudo = get_pseudo_header(buf, l);
    let seg = get_tcp_csum(buf, l);
    proof {
        assert(pseudo_sum(buf@, *l) == pseudo_sum(p, *l));
        lemma_ones_sum_add(pseudo_sum(p, *l), words_sum(l.segment(buf@)));
    }
    let c = fold_csum(pseudo + seg);
    write_be16(buf, off, c);
    proof {
        assert(buf@ =~= tcp_csum_fixed(p, *l));
        lemma_layout_kept(p, buf@, *l);
    }
}

/// After its IPv4 header checksum is recomputed, a frame's IPv4 header checksum is valid.
pub proof fn lemma_ipv4_csum_fixed_valid(p: Seq<u8>, l: Layout)
    requires
        layout_of(p) == Some(l),
    ensures
        ipv4_checksum_valid(ipv4_csum_fixed(p, l), l),
        layout_of(ipv4_csum_fixed(p, l)) == Some(l),
{
    lemma_layout_wf(p);
    let z = set_be16(p, IP_CSUM_OFF as int, 0);
    let c = ipv4_checksum(p, l);
    let f = ipv4_csum_fixed(p, l);
    let s = l.ip_header(z);
    let t = l.ip_header(f);
    lemma_ones_sum_basics(words_sum(s));
    assert(c <= 0xffff);
    let k: int = (IP_CSUM_OFF - ETH_HDR_LEN) as int / 2;
    assert(k == 5);
    assert(word_at(s, k) == 0);
    assert(word_at(t, k) == c);
    assert(forall|j: int| 0 <= j < word_count(s) && j != k ==> word_at(s, j) == word_at(t, j));
    assert(word_count(s) == word_count(t));
    lemma_words_sum_one_word(s, t, k, word_count(s));
    lemma_checksum_completes(words_sum(s));
    lemma_layout_kept(p, f, l);
}

/// After its TCP checksum is recomputed, a frame's TCP checksum is valid, and a
/// valid IPv4 header checksum stays valid.
pub proof fn lemma_tcp_csum_fixed_valid(p: Seq<u8>, l: Layout)
    requires
        layout_of(p) == Some(l),
    ensures
        tcp_checksum_valid(tcp_csum_fixed(p, l), l),
        ipv4_checksum_valid(p, l) ==> ipv4_checksum_valid(tcp_csum_fixed(p, l), l),
        layout_of(tcp_csum_fixed(p, l)) == Some(l),
{
    lemma_layout_wf(p);
    let z = set_be16(p, l.tcp_off() + TCP_CSUM_OFF, 0);
    let c = tcp_checksum(p, l);
    let f = tcp_csum_fixed(p, l);
    let s = l.segment(z);
    let t = l.segment(f);
    lemma_ones_sum_basics(pseudo_sum(p, l) + words_sum(s));
    assert(c <= 0xffff);
    let k: int = TCP_CSUM_OFF as int / 2;
    assert(word_at(s, k) == 0);
    assert(word_at(t, k) == c);
    assert(forall|j: int| 0 <= j < word_count(s) && j != k ==> word_at(s, j) == word_at(t, j));
    assert(word_count(s) == word_count(t));
    lemma_words_sum_one_word(s, t, k, word_count(s));
    assert(pseudo_sum(f, l) == pseudo_sum(p, l));
    lemma_checksum_completes(pseudo_sum(p, l) + words_sum(s));
    assert(l.ip_header(f) =~= l.ip_header(p));
    lemma_layout_kept(p, f, l);
}

} // verus!
