use woolong::engine::{
    payload_eq_slice, rewrite_packet, shenron_word, try_woolong, woolong, woolong_word, Config,
    MatchMode, RewriteError, Verdict, TRIGGER_PORT,
};
use woolong::packet::locate_headers;

const SRC_MAC: [u8; 6] = [0x02, 0x00, 0x00, 0x00, 0x00, 0x01];
const DST_MAC: [u8; 6] = [0x02, 0x00, 0x00, 0x00, 0x00, 0x02];
const SRC_IP: [u8; 4] = [192, 168, 1, 10];
const DST_IP: [u8; 4] = [192, 168, 1, 20];

struct Frame {
    sport: u16,
    dport: u16,
    seq: u32,
    ack: u32,
    flags: u8,
    ip_options: usize,
    tcp_options: usize,
    payload: Vec<u8>,
}

impl Frame {
    fn new(sport: u16, payload: &[u8]) -> Frame {
        Frame {
            sport,
            dport: 12345,
            seq: 1000,
            ack: 2000,
            flags: 0x10,
            ip_options: 0,
            tcp_options: 0,
            payload: payload.to_vec(),
        }
    }

    fn build(&self) -> Vec<u8> {
        let ihl = 20 + self.ip_options;
        let doff = 20 + self.tcp_options;
        let tot = ihl + doff + self.payload.len();
        let mut f = Vec::new();
        f.extend_from_slice(&DST_MAC);
        f.extend_from_slice(&SRC_MAC);
        f.extend_from_slice(&[0x08, 0x00]);
        f.push(0x40 | (ihl / 4) as u8);
        f.push(0);
        f.extend_from_slice(&(tot as u16).to_be_bytes());
        f.extend_from_slice(&[0x12, 0x34, 0x40, 0x00, 64, 6, 0, 0]);
        f.extend_from_slice(&SRC_IP);
        f.extend_from_slice(&DST_IP);
        f.extend(std::iter::repeat(1u8).take(self.ip_options));
        f.extend_from_slice(&self.sport.to_be_bytes());
        f.extend_from_slice(&self.dport.to_be_bytes());
        f.extend_from_slice(&self.seq.to_be_bytes());
        f.extend_from_slice(&self.ack.to_be_bytes());
        f.push(((doff / 4) as u8) << 4);
        f.push(self.flags);
        f.extend_from_slice(&[0xff, 0xff, 0, 0, 0, 0]);
        f.extend(std::iter::repeat(1u8).take(self.tcp_options));
        f.extend_from_slice(&self.payload);
        f
    }
}

fn plain_sum(bytes: &[u8]) -> u32 {
    let mut sum: u32 = 0;
    for pair in bytes.chunks(2) {
        let hi = pair[0] as u32;
        let lo = if pair.len() > 1 { pair[1] as u32 } else { 0 };
        sum += (hi << 8) | lo;
    }
    sum
}

fn fold(mut sum: u32) -> u32 {
    while sum > 0xffff {
        sum = (sum & 0xffff) + (sum >> 16);
    }
    sum
}

fn ipv4_valid(f: &[u8]) -> bool {
    let ihl = ((f[14] & 0x0f) as usize) * 4;
    fold(plain_sum(&f[14..14 + ihl])) == 0xffff
}

fn tcp_valid(f: &[u8]) -> bool {
    let ihl = ((f[14] & 0x0f) as usize) * 4;
    let tot = u16::from_be_bytes([f[16], f[17]]) as usize;
    let seg = &f[14 + ihl..14 + tot];
    let pseudo = plain_sum(&f[26..34]) + 6 + seg.len() as u32;
    fold(pseudo + plain_sum(seg)) == 0xffff
}

fn be16(f: &[u8], i: usize) -> u16 {
    u16::from_be_bytes([f[i], f[i + 1]])
}

fn be32(f: &[u8], i: usize) -> u32 {
    u32::from_be_bytes([f[i], f[i + 1], f[i + 2], f[i + 3]])
}

fn small_config(sig: &[u8], rep: &[u8]) -> Config {
    Config {
        trigger_port: TRIGGER_PORT,
        signature: sig.to_vec(),
        replacement: rep.to_vec(),
        match_mode: MatchMode::Full,
    }
}

#[test]
fn standard_config_holds_the_two_messages() {
    let cfg = Config::standard();
    assert_eq!(cfg.trigger_port, 7777);
    assert_eq!(cfg.signature, "願いを言え。どんな願いもひとつだけ叶えてやろう".as_bytes());
    assert_eq!(cfg.replacement, "ギャルのパンティおくれーーーーーーっ！！！！！".as_bytes());
    assert_eq!(cfg.signature.len(), cfg.replacement.len());
    assert_eq!(cfg.match_mode, MatchMode::Full);
    assert_eq!(shenron_word(), cfg.signature);
    assert_eq!(woolong_word(), cfg.replacement);
}

#[test]
fn trigger_segment_becomes_reply() {
    let cfg = Config::standard();
    let l = cfg.signature.len();
    let original = Frame::new(7777, &cfg.signature).build();
    let mut buf = original.clone();
    assert_eq!(woolong(&cfg, &mut buf), Verdict::Transmit);
    assert_eq!(buf.len(), original.len());
    assert_eq!(&buf[0..6], &SRC_MAC);
    assert_eq!(&buf[6..12], &DST_MAC);
    assert_eq!(&buf[26..30], &DST_IP);
    assert_eq!(&buf[30..34], &SRC_IP);
    assert_eq!(be16(&buf, 34), 12345);
    assert_eq!(be16(&buf, 36), 7777);
    assert_eq!(be32(&buf, 38), 2000);
    assert_eq!(be32(&buf, 42), 1000 + l as u32);
    assert_eq!(buf[47], 0x10);
    assert_eq!(&buf[54..], &cfg.replacement[..]);
    assert!(ipv4_valid(&buf));
    assert!(tcp_valid(&buf));
}

#[test]
fn even_length_segment_gets_valid_checksums() {
    let cfg = small_config(b"ABCDEFGH", b"abcdefgh");
    let mut buf = Frame::new(7777, b"ABCDEFGH").build();
    assert_eq!(woolong(&cfg, &mut buf), Verdict::Transmit);
    assert_eq!(&buf[54..], b"abcdefgh");
    assert!(ipv4_valid(&buf));
    assert!(tcp_valid(&buf));
}

#[test]
fn odd_length_segment_gets_valid_checksums() {
    let cfg = small_config(b"ABCDEFGHI", b"abcdefghi");
    let mut buf = Frame::new(7777, b"ABCDEFGHI").build();
    assert_eq!(woolong(&cfg, &mut buf), Verdict::Transmit);
    assert_eq!(&buf[54..], b"abcdefghi");
    assert!(ipv4_valid(&buf));
    assert!(tcp_valid(&buf));
}

#[test]
fn syn_and_fin_each_consume_a_sequence_number() {
    let cfg = small_config(b"ABCDEFGH", b"abcdefgh");
    let mut frame = Frame::new(7777, b"ABCDEFGH");
    frame.flags = 0x02 | 0x01 | 0x04 | 0x08;
    let mut buf = frame.build();
    assert_eq!(woolong(&cfg, &mut buf), Verdict::Transmit);
    assert_eq!(be32(&buf, 38), 2000);
    assert_eq!(be32(&buf, 42), 1000 + 8 + 2);
    assert_eq!(buf[47], 0x18);
    assert!(tcp_valid(&buf));
}

#[test]
fn acknowledgment_wraps_around() {
    let cfg = small_config(b"ABCDEFGH", b"abcdefgh");
    let mut frame = Frame::new(7777, b"ABCDEFGH");
    frame.seq = 0xffff_fffc;
    frame.flags = 0x12;
    let mut buf = frame.build();
    assert_eq!(woolong(&cfg, &mut buf), Verdict::Transmit);
    assert_eq!(be32(&buf, 42), 5);
    assert_eq!(buf[47], 0x10);
}

#[test]
fn ip_and_tcp_options_move_the_payload() {
    let cfg = small_config(b"ABCDEFGH", b"abcdefgh");
    let mut frame = Frame::new(7777, b"ABCDEFGH");
    frame.ip_options = 8;
    frame.tcp_options = 12;
    let mut buf = frame.build();
    assert_eq!(woolong(&cfg, &mut buf), Verdict::Transmit);
    assert_eq!(&buf[14 + 28 + 32..], b"abcdefgh");
    assert_eq!(be16(&buf, 42), 12345);
    assert_eq!(be16(&buf, 44), 7777);
    assert!(ipv4_valid(&buf));
    assert!(tcp_valid(&buf));
}

#[test]
fn other_source_port_passes_unchanged() {
    let cfg = Config::standard();
    for port in [0u16, 7776, 7778, 12345, 65535] {
        let original = Frame::new(port, &cfg.signature).build();
        let mut buf = original.clone();
        assert_eq!(woolong(&cfg, &mut buf), Verdict::Pass);
        assert_eq!(buf, original);
    }
}

#[test]
fn one_differing_byte_passes_unchanged() {
    let cfg = Config::standard();
    for i in [0usize, 7, 8, 40, 68] {
        let mut payload = cfg.signature.clone();
        payload[i] ^= 0x01;
        let original = Frame::new(7777, &payload).build();
        let mut buf = original.clone();
        assert_eq!(woolong(&cfg, &mut buf), Verdict::Pass);
        assert_eq!(buf, original);
    }
}

#[test]
fn prefix_match_compares_only_the_leading_bytes() {
    let mut cfg = Config::standard();
    cfg.match_mode = MatchMode::Prefix;
    let mut payload = cfg.signature.clone();
    payload[40] ^= 0x01;
    let mut buf = Frame::new(7777, &payload).build();
    assert_eq!(woolong(&cfg, &mut buf), Verdict::Transmit);
    assert_eq!(&buf[54..], &cfg.replacement[..]);

    let mut payload = cfg.signature.clone();
    payload[7] ^= 0x01;
    let original = Frame::new(7777, &payload).build();
    let mut buf = original.clone();
    assert_eq!(woolong(&cfg, &mut buf), Verdict::Pass);
    assert_eq!(buf, original);
}

#[test]
fn prefix_match_needs_a_long_enough_signature() {
    let mut cfg = small_config(b"ABCD", b"abcd");
    cfg.match_mode = MatchMode::Prefix;
    let original = Frame::new(7777, b"ABCD").build();
    let mut buf = original.clone();
    assert_eq!(woolong(&cfg, &mut buf), Verdict::Pass);
    assert_eq!(buf, original);
}

#[test]
fn truncated_frames_pass_unchanged() {
    let cfg = Config::standard();
    let full = Frame::new(7777, &cfg.signature).build();
    for len in [0usize, 1, 13, 14, 20, 33, 34, 40, 53, 54, 60, full.len() - 1] {
        let original = full[..len].to_vec();
        let mut buf = original.clone();
        assert_eq!(woolong(&cfg, &mut buf), Verdict::Pass);
        assert_eq!(buf, original);
    }
}

#[test]
fn payload_shorter_than_signature_passes_unchanged() {
    let cfg = Config::standard();
    let original = Frame::new(7777, &cfg.signature[..30]).build();
    let mut buf = original.clone();
    assert_eq!(woolong(&cfg, &mut buf), Verdict::Pass);
    assert_eq!(buf, original);
}

#[test]
fn payload_longer_than_replacement_passes_unchanged() {
    let cfg = Config::standard();
    let mut payload = cfg.signature.clone();
    payload.extend_from_slice(b"tail");
    let original = Frame::new(7777, &payload).build();
    let mut buf = original.clone();
    assert_eq!(
        try_woolong(&cfg, &mut buf),
        Err(RewriteError::PayloadLength)
    );
    assert_eq!(buf, original);
    assert_eq!(woolong(&cfg, &mut buf), Verdict::Pass);
    assert_eq!(buf, original);
}

#[test]
fn replacement_of_another_length_aborts_unchanged() {
    let cfg = small_config(b"ABCDEFGH", b"abcdefg");
    let original = Frame::new(7777, b"ABCDEFGH").build();
    let mut buf = original.clone();
    assert_eq!(
        try_woolong(&cfg, &mut buf),
        Err(RewriteError::ReplacementLength)
    );
    assert_eq!(buf, original);
    assert_eq!(woolong(&cfg, &mut buf), Verdict::Abort);
    assert_eq!(buf, original);
}

#[test]
fn not_ipv4_or_not_tcp_passes_unchanged() {
    let cfg = Config::standard();
    let mut ipv6 = Frame::new(7777, &cfg.signature).build();
    ipv6[12] = 0x86;
    ipv6[13] = 0xdd;
    let mut udp = Frame::new(7777, &cfg.signature).build();
    udp[23] = 17;
    let mut short_ihl = Frame::new(7777, &cfg.signature).build();
    short_ihl[14] = 0x44;
    for original in [ipv6, udp, short_ihl] {
        let mut buf = original.clone();
        assert_eq!(woolong(&cfg, &mut buf), Verdict::Pass);
        assert_eq!(buf, original);
    }
}

#[test]
fn non_matching_frame_twice_gives_same_result() {
    let cfg = Config::standard();
    let original = Frame::new(8080, &cfg.signature).build();
    let mut buf = original.clone();
    let first = woolong(&cfg, &mut buf);
    let after_first = buf.clone();
    let second = woolong(&cfg, &mut buf);
    assert_eq!(first, Verdict::Pass);
    assert_eq!(first, second);
    assert_eq!(after_first, original);
    assert_eq!(buf, after_first);
}

#[test]
fn try_woolong_reports_pass_and_transmit() {
    let cfg = Config::standard();
    let mut buf = Frame::new(1, &cfg.signature).build();
    assert_eq!(try_woolong(&cfg, &mut buf), Ok(Verdict::Pass));
    let mut buf = Frame::new(7777, &cfg.signature).build();
    assert_eq!(try_woolong(&cfg, &mut buf), Ok(Verdict::Transmit));
}

#[test]
fn rewrite_packet_checks_lengths_first() {
    let cfg = small_config(b"ABCDEFGH", b"abcdefgh");
    let original = Frame::new(7777, b"ABCDEFG").build();
    let mut buf = original.clone();
    let l = locate_headers(&buf).unwrap();
    assert_eq!(rewrite_packet(&cfg, &mut buf, &l), Err(RewriteError::PayloadLength));
    assert_eq!(buf, original);
}

#[test]
fn payload_eq_slice_compares_inside_the_buffer() {
    let buf = Frame::new(7777, b"ABCDEFGHIJ").build();
    assert!(payload_eq_slice(&buf, 54, b"ABCDEFGHIJ", MatchMode::Full));
    assert!(!payload_eq_slice(&buf, 54, b"ABCDEFGHIK", MatchMode::Full));
    assert!(!payload_eq_slice(&buf, 54, b"ABCDEFGHIJK", MatchMode::Full));
    assert!(payload_eq_slice(&buf, 54, b"ABCDEFGHxx", MatchMode::Prefix));
    assert!(!payload_eq_slice(&buf, 54, b"ABCDEFG", MatchMode::Prefix));
    assert!(!payload_eq_slice(&buf, 60, b"GHIJKLMN", MatchMode::Prefix));
    assert!(!payload_eq_slice(&buf, usize::MAX, b"ABCDEFGH", MatchMode::Full));
}
