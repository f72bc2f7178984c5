//! The verdict dispatcher: recognise a trigger segment and turn it into a reply.
use vstd::prelude::*;
use crate::packet::{
    Layout, layout_of, lemma_layout_wf, lemma_layout_kept, be16, TCP_SPORT_OFF, ptr_at,
    locate_headers, get_ports,
};
use crate::transform::{
    macs_swapped, ipv4addrs_swapped, ports_swapped, payload_replaced, seq_ack_rewritten,
    flags_rewritten, swap_macaddrs, swap_ipv4addrs, swap_ports, rewrite_payload, rewrite_seq_ack,
    rewrite_flags,
};
use crate::frame_csum::{ipv4_csum_fixed, tcp_csum_fixed, recalc_ipv4_csum, recalc_tcp_csum};

verus! {

/// The TCP source port that marks a trigger segment.
pub const TRIGGER_PORT: u16 = 7777;

/// Length of the leading part of the signature that a prefix match compares.
pub const PREFIX_LEN: usize = 8;

/// How the payload is compared with the signature.
#[derive(Clone, Copy, Debug, PartialEq, Eq, Structural)]
pub enum MatchMode {
    /// Compare only the signature's first `PREFIX_LEN` bytes: cheaper, and open
    /// to a false positive on a payload that shares that prefix.
    Prefix,
    /// Compare every byte of the signature.
    Full,
}

/// What the hosting hook does with the frame.
#[derive(Clone, Copy, Debug, PartialEq, Eq, Structural)]
pub enum Verdict {
    /// Hand the frame, unchanged, to the normal receive path.
    Pass,
    /// Send the rewritten frame back out of the interface it came in on.
    Transmit,
    /// Drop the frame and signal an error.
    Abort,
}

/// Why a matched frame could not be rewritten.
#[derive(Clone, Copy, Debug, PartialEq, Eq, Structural)]
pub enum RewriteError {
    /// The replacement is not as long as the signature: a configuration mistake.
    ReplacementLength,
    /// The frame's payload is not as long as the replacement.
    PayloadLength,
}

/// The engine's immutable configuration, shared by every invocation.
pub struct Config {
    pub trigger_port: u16,
    pub signature: Vec<u8>,
    pub replacement: Vec<u8>,
    pub match_mode: MatchMode,
}

/// The UTF-8 bytes of the message whose arrival triggers the rewrite.
pub open spec fn shenron_word_bytes() -> Seq<u8> {
    seq![
        0xe9, 0xa1, 0x98, 0xe3, 0x81, 0x84, 0xe3, 0x82, 0x92, 0xe8, 0xa8, 0x80,
        0xe3, 0x81, 0x88, 0xe3, 0x80, 0x82, 0xe3, 0x81, 0xa9, 0xe3, 0x82, 0x93,
        0xe3, 0x81, 0xaa, 0xe9, 0xa1, 0x98, 0xe3, 0x81, 0x84, 0xe3, 0x82, 0x82,
        0xe3, 0x81, 0xb2, 0xe3, 0x81, 0xa8, 0xe3, 0x81, 0xa4, 0xe3, 0x81, 0xa0,
        0xe3, 0x81, 0x91, 0xe5, 0x8f, 0xb6, 0xe3, 0x81, 0x88, 0xe3, 0x81, 0xa6,
        0xe3, 0x82, 0x84, 0xe3, 0x82, 0x8d, 0xe3, 0x81, 0x86,
    ]
}

/// The UTF-8 bytes of the message that replaces it.
pub open spec fn woolong_word_bytes() -> Seq<u8> {
    seq![
        0xe3, 0x82, 0xae, 0xe3, 0x83, 0xa3, 0xe3, 0x83, 0xab, 0xe3, 0x81, 0xae,
        0xe3, 0x83, 0x91, 0xe3, 0x83, 0xb3, 0xe3, 0x83, 0x86, 0xe3, 0x82, 0xa3,
        0xe3, 0x81, 0x8a, 0xe3, 0x81, 0x8f, 0xe3, 0x82, 0x8c, 0xe3, 0x83, 0xbc,
        0xe3, 0x83, 0xbc, 0xe3, 0x83, 0xbc, 0xe3, 0x83, 0xbc, 0xe3, 0x83, 0xbc,
        0xe3, 0x83, 0xbc, 0xe3, 0x81, 0xa3, 0xef, 0xbc, 0x81, 0xef, 0xbc, 0x81,
        0xef, 0xbc, 0x81, 0xef, 0xbc, 0x81, 0xef, 0xbc, 0x81,
    ]
}

/// The signature bytes.
pub fn shenron_word() -> (r: Vec<u8>)
    ensures
        r@ == shenron_word_bytes(),
{
    vec![
        0xe9, 0xa1, 0x98, 0xe3, 0x81, 0x84, 0xe3, 0x82, 0x92, 0xe8, 0xa8, 0x80,
        0xe3, 0x81, 0x88, 0xe3, 0x80, 0x82, 0xe3, 0x81, 0xa9, 0xe3, 0x82, 0x93,
        0xe3, 0x81, 0xaa, 0xe9, 0xa1, 0x98, 0xe3, 0x81, 0x84, 0xe3, 0x82, 0x82,
        0xe3, 0x81, 0xb2, 0xe3, 0x81, 0xa8, 0xe3, 0x81, 0xa4, 0xe3, 0x81, 0xa0,
        0xe3, 0x81, 0x91, 0xe5, 0x8f, 0xb6, 0xe3, 0x81, 0x88, 0xe3, 0x81, 0xa6,
        0xe3, 0x82, 0x84, 0xe3, 0x82, 0x8d, 0xe3, 0x81, 0x86,
    ]
}

/// The replacement bytes.
pub fn woolong_word() -> (r: Vec<u8>)
    ensures
        r@ == woolong_word_bytes(),
{
    vec![
        0xe3, 0x82, 0xae, 0xe3, 0x83, 0xa3, 0xe3, 0x83, 0xab, 0xe3, 0x81, 0xae,
        0xe3, 0x83, 0x91, 0xe3, 0x83, 0xb3, 0xe3, 0x83, 0x86, 0xe3, 0x82, 0xa3,
        0xe3, 0x81, 0x8a, 0xe3, 0x81, 0x8f, 0xe3, 0x82, 0x8c, 0xe3, 0x83, 0xbc,
        0xe3, 0x83, 0xbc, 0xe3, 0x83, 0xbc, 0xe3, 0x83, 0xbc, 0xe3, 0x83, 0xbc,
        0xe3, 0x83, 0xbc, 0xe3, 0x81, 0xa3, 0xef, 0xbc, 0x81, 0xef, 0xbc, 0x81,
        0xef, 0xbc, 0x81, 0xef, 0xbc, 0x81, 0xef, 0xbc, 0x81,
    ]
}

impl Config {
    /// The standard configuration: source port 7777, the two messages above, full match.
    pub fn standard() -> (r: Config)
        ensures
            r.trigger_port == TRIGGER_PORT,
            r.signature@ == shenron_word_bytes(),
            r.replacement@ == woolong_word_bytes(),
            r.match_mode == MatchMode::Full,
    {
        Config {
            trigger_port: TRIGGER_PORT,
            signature: shenron_word(),
            replacement: woolong_word(),
            match_mode: MatchMode::Full,
        }
    }
}

/// The bytes of `p` at `off` equal `pat`, all of which lie inside `p`.
pub open spec fn bytes_at(p: Seq<u8>, off: int, pat: Seq<u8>) -> bool {
    &&& off + pat.len() <= p.len()
    &&& p.subrange(off, off + pat.len()) == pat
}

/// Whether the payload at `off` matches the signature under `mode`.
pub open spec fn payload_matches(p: Seq<u8>, off: int, sig: Seq<u8>, mode: MatchMode) -> bool {
    match mode {
        MatchMode::Full => bytes_at(p, off, sig),
        MatchMode::Prefix => sig.len() >= PREFIX_LEN && bytes_at(
            p,
            off,
            sig.subrange(0, PREFIX_LEN as int),
        ),
    }
}

/// `p` is a well-formed IPv4/TCP frame from the trigger port whose payload
/// matches the signature.
pub open spec fn is_trigger(cfg: Config, p: Seq<u8>) -> bool {
    match layout_of(p) {
        None => false,
        Some(l) => be16(p, l.tcp_off() + TCP_SPORT_OFF) == cfg.trigger_port && payload_matches(
            p,
            l.payload_off(),
            cfg.signature@,
            cfg.match_mode,
        ),
    }
}

/// The verdict on `p`.
pub open spec fn verdict_of(cfg: Config, p: Seq<u8>) -> Verdict {
    if !is_trigger(cfg, p) {
        Verdict::Pass
    } else if cfg.replacement@.len() != cfg.signature@.len() {
        Verdict::Abort
    } else if cfg.replacement@.len() != layout_of(p).unwrap().payload_len() {
        Verdict::Pass
    } else {
        Verdict::Transmit
    }
}

/// The reply made of `p`: addresses and ports reflected, payload replaced,
/// sequence numbers and flags of a reply, checksums recomputed.
pub open spec fn reply_of(cfg: Config, p: Seq<u8>, l: Layout) -> Seq<u8> {
    let reflected = ports_swapped(ipv4addrs_swapped(macs_swapped(p)), l);
    let rewritten = flags_rewritten(
        seq_ack_rewritten(payload_replaced(reflected, l, cfg.replacement@), l),
        l,
    );
    tcp_csum_fixed(ipv4_csum_fixed(rewritten, l), l)
}

/// The frame after processing `p`: the reply if it is transmitted, `p` unchanged otherwise.
pub open spec fn packet_after(cfg: Config, p: Seq<u8>) -> Seq<u8> {
    if verdict_of(cfg, p) == Verdict::Transmit {
        reply_of(cfg, p, layout_of(p).unwrap())
    } else {
        p
    }
}

/// Compares the payload at `off` with `pat`, under `mode`. A comparison that
/// would read past the end of `buf` is no match.
pub fn payload_eq_slice(buf: &Vec<u8>, off: usize, pat: &[u8], mode: MatchMode) -> (r: bool)
    ensures
        r == payload_matches(buf@, off as int, pat@, mode),
{
    let n = match mode {
        MatchMode::Full => pat.len(),
        MatchMode::Prefix => {
            if pat.len() < PREFIX_LEN {
                return false;
            }
            PREFIX_LEN
        },
    };
    let ghost want = pat@.subrange(0, n as int);
    if !ptr_at(buf, off, n) {
        return false;
    }
    let total = buf.len();
    let mut i: usize = 0;
    while i < n
        invariant
            total == buf@.len(),
            mode == MatchMode::Full ==> n == pat@.len(),
            mode == MatchMode::Prefix ==> n == PREFIX_LEN && pat@.len() >= PREFIX_LEN,
            n <= pat@.len(),
            off + n <= buf@.len(),
            want == pat@.subrange(0, n as int),
            i <= n,
            forall|j: int| 0 <= j < i ==> buf@[off + j] == pat@[j],
        decreases n - i,
    {
        if buf[off + i] != pat[i] {
            assert(buf@.subrange(off as int, off + n)[i as int] != want[i as int]);
            return false;
        }
        i = i + 1;
    }
    assert(buf@.subrange(off as int, off + n) =~= want);
    assert(pat@.subrange(0, pat@.len() as int) =~= pat@);
    true
}

/// Rewrites a matched frame into its reply. Nothing is written unless every
/// step can be carried out.
pub fn rewrite_packet(cfg: &Config, buf: &mut Vec<u8>, l: &Layout) -> (r: Result<(), RewriteError>)
    requires
        layout_of(old(buf)@) == Some(*l),
    ensures
        r == (if cfg.replacement@.len() != cfg.signature@.len() {
            Err(RewriteError::ReplacementLength)
        } else if cfg.replacement@.len() != l.payload_len() {
            Err(RewriteError::PayloadLength)
        } else {
            Ok(())
        }),
        r is Ok ==> final(buf)@ == reply_of(*cfg, old(buf)@, *l),
        r is Err ==> final(buf)@ == old(buf)@,
{
    proof {
        lemma_layout_wf(buf@);
    }
    if cfg.replacement.len() != cfg.signature.len() {
        return Err(RewriteError::ReplacementLength);
    }
    if cfg.replacement.len() != l.payload_length() {
        return Err(RewriteError::PayloadLength);
    }
    let ghost p = buf@;
    swap_macaddrs(buf);
    proof {
        lemma_layout_kept(p, buf@, *l);
    }
    let ghost s_macs = buf@;
    swap_ipv4addrs(buf);
    proof {
        lemma_layout_kept(s_macs, buf@, *l);
    }
    swap_ports(buf, l);
    match rewrite_payload(buf, l, cfg.replacement.as_slice()) {
        Ok(()) => {},
        Err(()) => {
            return Err(RewriteError::PayloadLength);
        },
    }
    rewrite_seq_ack(buf, l);
    rewrite_flags(buf, l);
    recalc_ipv4_csum(buf, l);
    recalc_tcp_csum(buf, l);
    Ok(())
}

/// Decides on one frame and, for a trigger segment, rewrites it: `Ok` with the
/// verdict, or the reason a matched frame could not be rewritten.
pub fn try_woolong(cfg: &Config, buf: &mut Vec<u8>) -> (r: Result<Verdict, RewriteError>)
    ensures
        r == (if !is_trigger(*cfg, old(buf)@) {
            Ok(Verdict::Pass)
        } else if cfg.replacement@.len() != cfg.signature@.len() {
            Err(RewriteError::ReplacementLength)
        } else if cfg.replacement@.len() != layout_of(old(buf)@).unwrap().payload_len() {
            Err(RewriteError::PayloadLength)
        } else {
            Ok(Verdict::Transmit)
        }),
        final(buf)@ == packet_after(*cfg, old(buf)@),
{
    let l = match locate_headers(buf) {
        Some(l) => l,
        None => return Ok(Verdict::Pass),
    };
    proof {
        lemma_layout_wf(buf@);
    }
    let (source_port, _dest_port) = get_ports(buf, &l);
    if source_port != cfg.trigger_port {
        return Ok(Verdict::Pass);
    }
    if !payload_eq_slice(buf, l.payload_offset(), cfg.signature.as_slice(), cfg.match_mode) {
        return Ok(Verdict::Pass);
    }
    match rewrite_packet(cfg, buf, &l) {
        Ok(()) => Ok(Verdict::Transmit),
        Err(e) => Err(e),
    }
}

/// The engine's entry point: processes one frame in place and returns the
/// verdict. A frame that cannot be rewritten because of its own contents
/// passes unchanged; a configuration whose replacement differs in length from
/// its signature aborts a matched frame, unchanged.
pub fn woolong(cfg: &Config, buf: &mut Vec<u8>) -> (r: Verdict)
    ensures
        r == verdict_of(*cfg, old(buf)@),
        final(buf)@ == packet_after(*cfg, old(buf)@),
{
    match try_woolong(cfg, buf) {
        Ok(v) => v,
        Err(RewriteError::ReplacementLength) => Verdict::Abort,
        Err(RewriteError::PayloadLength) => Verdict::Pass,
    }
}

} // verus!
