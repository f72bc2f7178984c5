//! The wire format of an Ethernet / IPv4 / TCP frame, and bounds-checked access to it.
use vstd::prelude::*;

verus! {

/// Length of the Ethernet header: destination MAC, source MAC, ethertype.
pub const ETH_HDR_LEN: usize = 14;

/// Length of the fixed part of the IPv4 header.
pub const IPV4_HDR_LEN: usize = 20;

/// Length of the fixed part of the TCP header.
pub const TCP_HDR_LEN: usize = 20;

/// Ethertype of IPv4.
pub const ETHERTYPE_IPV4: u16 = 0x0800;

/// IPv4 protocol number of TCP.
pub const IPPROTO_TCP: u8 = 6;

/// Offsets inside the Ethernet header.
pub const ETH_DST_OFF: usize = 0;
pub const ETH_SRC_OFF: usize = 6;
pub const ETH_TYPE_OFF: usize = 12;

/// Offsets inside the frame of the fixed IPv4 fields.
pub const IP_VIHL_OFF: usize = 14;
pub const IP_TOT_LEN_OFF: usize = 16;
pub const IP_PROTO_OFF: usize = 23;
pub const IP_CSUM_OFF: usize = 24;
pub const IP_SRC_OFF: usize = 26;
pub const IP_DST_OFF: usize = 30;

/// Offsets inside the TCP header.
pub const TCP_SPORT_OFF: usize = 0;
pub const TCP_DPORT_OFF: usize = 2;
pub const TCP_SEQ_OFF: usize = 4;
pub const TCP_ACK_OFF: usize = 8;
pub const TCP_DOFF_OFF: usize = 12;
pub const TCP_FLAGS_OFF: usize = 13;
pub const TCP_CSUM_OFF: usize = 16;

/// The big-endian 16-bit value at `i`.
pub open spec fn be16(p: Seq<u8>, i: int) -> nat {
    p[i] as nat * 256 + p[i + 1] as nat
}

/// The big-endian 32-bit value at `i`.
pub open spec fn be32(p: Seq<u8>, i: int) -> nat {
    be16(p, i) * 0x10000 + be16(p, i + 2)
}

/// `p` with the 16-bit value `v` stored big-endian at `i`.
pub open spec fn set_be16(p: Seq<u8>, i: int, v: nat) -> Seq<u8> {
    p.update(i, (v / 256) as u8).update(i + 1, (v % 256) as u8)
}

/// `p` with the 32-bit value `v` stored big-endian at `i`.
pub open spec fn set_be32(p: Seq<u8>, i: int, v: nat) -> Seq<u8> {
    set_be16(set_be16(p, i, v / 0x10000), i + 2, v % 0x10000)
}

/// Where the headers of a frame lie: the IPv4 header length (from its IHL
/// field), the TCP header length (from its data offset field), and the IPv4
/// total length.
#[derive(Clone, Copy, Debug, PartialEq, Eq, Structural)]
pub struct Layout {
    pub ip_hdr_len: usize,
    pub tcp_hdr_len: usize,
    pub ip_total_len: usize,
}

impl Layout {
    /// Offset of the TCP header in the frame.
    pub open spec fn tcp_off(self) -> int {
        ETH_HDR_LEN + self.ip_hdr_len
    }

    /// Offset of the application payload in the frame.
    pub open spec fn payload_off(self) -> int {
        self.tcp_off() + self.tcp_hdr_len
    }

    /// Length of the TCP segment, header and payload.
    pub open spec fn segment_len(self) -> int {
        self.ip_total_len - self.ip_hdr_len
    }

    /// Length of the application payload.
    pub open spec fn payload_len(self) -> int {
        self.segment_len() - self.tcp_hdr_len
    }

    /// Offset just past the IPv4 datagram.
    pub open spec fn frame_end(self) -> int {
        ETH_HDR_LEN + self.ip_total_len
    }

    /// The TCP segment of `p`.
    pub open spec fn segment(self, p: Seq<u8>) -> Seq<u8> {
        p.subrange(self.tcp_off(), self.frame_end())
    }

    /// The IPv4 header of `p`.
    pub open spec fn ip_header(self, p: Seq<u8>) -> Seq<u8> {
        p.subrange(ETH_HDR_LEN as int, self.tcp_off())
    }

    /// The application payload of `p`.
    pub open spec fn payload(self, p: Seq<u8>) -> Seq<u8> {
        p.subrange(self.payload_off(), self.frame_end())
    }

    pub open spec fn wf(self) -> bool {
        &&& IPV4_HDR_LEN <= self.ip_hdr_len <= 60
        &&& TCP_HDR_LEN <= self.tcp_hdr_len <= 60
        &&& self.ip_hdr_len + self.tcp_hdr_len <= self.ip_total_len <= 0xffff
    }

    /// Length of the application payload.
    pub fn payload_length(&self) -> (r: usize)
        requires
            self.wf(),
        ensures
            r == self.payload_len(),
    {
        self.ip_total_len - self.ip_hdr_len - self.tcp_hdr_len
    }

    /// Offset of the TCP header in the frame.
    pub fn tcp_offset(&self) -> (r: usize)
        requires
            self.wf(),
        ensures
            r == self.tcp_off(),
    {
        ETH_HDR_LEN + self.ip_hdr_len
    }

    /// Offset of the application payload in the frame.
    pub fn payload_offset(&self) -> (r: usize)
        requires
            self.wf(),
        ensures
            r == self.payload_off(),
    {
        ETH_HDR_LEN + self.ip_hdr_len + self.tcp_hdr_len
    }
}

/// The IPv4 header length that the IHL field of `p` gives.
pub open spec fn ip_hdr_len_of(p: Seq<u8>) -> nat {
    (p[IP_VIHL_OFF as int] % 16) as nat * 4
}

/// The TCP header length that the data offset field of the header at `tcp_off` gives.
pub open spec fn tcp_hdr_len_of(p: Seq<u8>, tcp_off: int) -> nat {
    (p[tcp_off + TCP_DOFF_OFF] / 16) as nat * 4
}

/// `p` is an Ethernet frame that carries IPv4 and has room for the fixed IPv4 fields.
pub open spec fn is_ipv4_frame(p: Seq<u8>) -> bool {
    &&& p.len() >= ETH_HDR_LEN + IPV4_HDR_LEN
    &&& be16(p, ETH_TYPE_OFF as int) == ETHERTYPE_IPV4
}

/// The layout of `p` if it is a well-formed IPv4/TCP frame whose headers and
/// whole datagram lie inside it; `None` otherwise.
pub open spec fn layout_of(p: Seq<u8>) -> Option<Layout> {
    if !is_ipv4_frame(p) {
        None
    } else {
        let ihl = ip_hdr_len_of(p);
        if ihl < IPV4_HDR_LEN || p[IP_PROTO_OFF as int] != IPPROTO_TCP || ETH_HDR_LEN + ihl
            + TCP_HDR_LEN > p.len() {
            None
        } else {
            let doff = tcp_hdr_len_of(p, ETH_HDR_LEN + ihl);
            let tot = be16(p, IP_TOT_LEN_OFF as int);
            if doff < TCP_HDR_LEN || tot < ihl + doff || ETH_HDR_LEN + tot > p.len() {
                None
            } else {
                Some(Layout { ip_hdr_len: ihl as usize, tcp_hdr_len: doff as usize, ip_total_len: tot as usize })
            }
        }
    }
}

/// The bytes that decide the layout of a frame.
pub open spec fn same_layout_bytes(p: Seq<u8>, q: Seq<u8>, l: Layout) -> bool {
    &&& p.len() == q.len()
    &&& p[ETH_TYPE_OFF as int] == q[ETH_TYPE_OFF as int]
    &&& p[ETH_TYPE_OFF + 1] == q[ETH_TYPE_OFF + 1]
    &&& p[IP_VIHL_OFF as int] == q[IP_VIHL_OFF as int]
    &&& p[IP_TOT_LEN_OFF as int] == q[IP_TOT_LEN_OFF as int]
    &&& p[IP_TOT_LEN_OFF + 1] == q[IP_TOT_LEN_OFF + 1]
    &&& p[IP_PROTO_OFF as int] == q[IP_PROTO_OFF as int]
    &&& p[l.tcp_off() + TCP_DOFF_OFF] == q[l.tcp_off() + TCP_DOFF_OFF]
}

/// A frame whose layout bytes are kept keeps its layout.
pub proof fn lemma_layout_kept(p: Seq<u8>, q: Seq<u8>, l: Layout)
    requires
        layout_of(p) == Some(l),
        same_layout_bytes(p, q, l),
    ensures
        layout_of(q) == Some(l),
{
}

/// A parsed layout is well formed and lies inside the frame.
pub proof fn lemma_layout_wf(p: Seq<u8>)
    requires
        layout_of(p) is Some,
    ensures
        layout_of(p).unwrap().wf(),
        layout_of(p).unwrap().frame_end() <= p.len(),
        layout_of(p).unwrap().tcp_off() + TCP_HDR_LEN <= layout_of(p).unwrap().payload_off(),
{
    let ihl = ip_hdr_len_of(p);
    assert(ihl <= 60);
}

/// Whether `size` bytes at `offset` lie inside `buf`: the one check that
/// guards every access to a frame.
pub fn ptr_at(buf: &Vec<u8>, offset: usize, size: usize) -> (r: bool)
    ensures
        r == (offset + size <= buf@.len()),
{
    offset <= buf.len() && size <= buf.len() - offset
}

/// Reads the big-endian 16-bit value at `off`.
pub fn read_be16(buf: &Vec<u8>, off: usize) -> (r: u16)
    requires
        off + 2 <= buf@.len(),
    ensures
        r == be16(buf@, off as int),
{
    // A vector's length is a usize, so the offsets below do not overflow.
    let _len = buf.len();
    buf[off] as u16 * 256 + buf[off + 1] as u16
}

/// Reads the big-endian 32-bit value at `off`.
pub fn read_be32(buf: &Vec<u8>, off: usize) -> (r: u32)
    requires
        off + 4 <= buf@.len(),
    ensures
        r == be32(buf@, off as int),
{
    let _len = buf.len();
    let hi = read_be16(buf, off) as u32;
    let lo = read_be16(buf, off + 2) as u32;
    hi * 0x10000 + lo
}

/// Stores `v` big-endian at `off`.
pub fn write_be16(buf: &mut Vec<u8>, off: usize, v: u16)
    requires
        off + 2 <= old(buf)@.len(),
    ensures
        final(buf)@ == set_be16(old(buf)@, off as int, v as nat),
{
    let _len = buf.len();
    buf[off] = (v / 256) as u8;
    buf[off + 1] = (v % 256) as u8;
}

/// Stores `v` big-endian at `off`.
pub fn write_be32(buf: &mut Vec<u8>, off: usize, v: u32)
    requires
        off + 4 <= old(buf)@.len(),
    ensures
        final(buf)@ == set_be32(old(buf)@, off as int, v as nat),
{
    let _len = buf.len();
    write_be16(buf, off, (v / 0x10000) as u16);
    write_be16(buf, off + 2, (v % 0x10000) as u16);
}

/// Storing a value and reading it back gives the value.
pub proof fn lemma_be16_set(p: Seq<u8>, i: int, v: nat)
    requires
        0 <= i,
        i + 2 <= p.len(),
        v <= 0xffff,
    ensures
        be16(set_be16(p, i, v), i) == v,
        set_be16(p, i, v).len() == p.len(),
        forall|j: int| 0 <= j < p.len() && j != i && j != i + 1 ==> set_be16(p, i, v)[j] == p[j],
{
}

/// Storing a value and reading it back gives the value.
pub proof fn lemma_be32_set(p: Seq<u8>, i: int, v: nat)
    requires
        0 <= i,
        i + 4 <= p.len(),
        v <= 0xffff_ffff,
    ensures
        be32(set_be32(p, i, v), i) == v,
        set_be32(p, i, v).len() == p.len(),
        forall|j: int| 0 <= j < p.len() && !(i <= j < i + 4) ==> set_be32(p, i, v)[j] == p[j],
{
    lemma_be16_set(p, i, v / 0x10000);
    lemma_be16_set(set_be16(p, i, v / 0x10000), i + 2, v % 0x10000);
}

/// Finds the IPv4 header: the IPv4 header length if `buf` is an Ethernet frame
/// that carries IPv4 with room for the fixed IPv4 fields.
fn get_ipv4hdr(buf: &Vec<u8>) -> (r: Option<usize>)
    ensures
        r == (if is_ipv4_frame(buf@) {
            Some(ip_hdr_len_of(buf@) as usize)
        } else {
            None
        }),
{
    if !ptr_at(buf, 0, ETH_HDR_LEN) || read_be16(buf, ETH_TYPE_OFF) != ETHERTYPE_IPV4 {
        return None;
    }
    if !ptr_at(buf, ETH_HDR_LEN, IPV4_HDR_LEN) {
        return None;
    }
    Some((buf[IP_VIHL_OFF] % 16) as usize * 4)
}

/// Finds the TCP header after an IPv4 header of `ihl` bytes: its length, if the
/// datagram carries TCP and the fixed TCP fields lie inside `buf`.
fn get_tcphdr(buf: &Vec<u8>, ihl: usize) -> (r: Option<usize>)
    requires
        is_ipv4_frame(buf@),
        ihl == ip_hdr_len_of(buf@),
    ensures
        r == (if ihl < IPV4_HDR_LEN || buf@[IP_PROTO_OFF as int] != IPPROTO_TCP || ETH_HDR_LEN
            + ihl + TCP_HDR_LEN > buf@.len() {
            None
        } else {
            Some(tcp_hdr_len_of(buf@, ETH_HDR_LEN + ihl) as usize)
        }),
{
    if ihl < IPV4_HDR_LEN || buf[IP_PROTO_OFF] != IPPROTO_TCP {
        return None;
    }
    let tcp_off = ETH_HDR_LEN + ihl;
    if !ptr_at(buf, tcp_off, TCP_HDR_LEN) {
        return None;
    }
    Some((buf[tcp_off + TCP_DOFF_OFF] / 16) as usize * 4)
}

/// Walks Ethernet, IPv4 and TCP: the layout of `buf` if it is a well-formed
/// IPv4/TCP frame whose whole datagram lies inside it.
pub fn locate_headers(buf: &Vec<u8>) -> (r: Option<Layout>)
    ensures
        r == layout_of(buf@),
{
    let ihl = match get_ipv4hdr(buf) {
        Some(ihl) => ihl,
        None => return None,
    };
    let doff = match get_tcphdr(buf, ihl) {
        Some(doff) => doff,
        None => return None,
    };
    let tot = read_be16(buf, IP_TOT_LEN_OFF) as usize;
    if doff < TCP_HDR_LEN || tot < ihl + doff || !ptr_at(buf, ETH_HDR_LEN, tot) {
        return None;
    }
    Some(Layout { ip_hdr_len: ihl, tcp_hdr_len: doff, ip_total_len: tot })
}

/// The TCP source and destination ports.
pub fn get_ports(buf: &Vec<u8>, l: &Layout) -> (r: (u16, u16))
    requires
        layout_of(buf@) == Some(*l),
    ensures
        r.0 == be16(buf@, l.tcp_off() + TCP_SPORT_OFF),
        r.1 == be16(buf@, l.tcp_off() + TCP_DPORT_OFF),
{
    proof {
        lemma_layout_wf(buf@);
    }
    let off = l.tcp_offset();
    (read_be16(buf, off + TCP_SPORT_OFF), read_be16(buf, off + TCP_DPORT_OFF))
}

} // verus!
