use woolong::checksum::{add_carry, fold_csum, sum_words};
use woolong::frame_csum::{recalc_ipv4_csum, recalc_tcp_csum};
use woolong::packet::{
    locate_headers, get_ports, ptr_at, read_be16, read_be32, write_be16, write_be32, Layout,
};
use woolong::transform::{
    rewrite_flags, rewrite_payload, rewrite_seq_ack, swap_ipv4addrs, swap_macaddrs, swap_ports,
};

fn sample_frame(payload: &[u8]) -> Vec<u8> {
    let tot = 40 + payload.len();
    let mut f = vec![
        1, 2, 3, 4, 5, 6, 11, 12, 13, 14, 15, 16, 0x08, 0x00, 0x45, 0x00,
    ];
    f.extend_from_slice(&(tot as u16).to_be_bytes());
    f.extend_from_slice(&[0, 0, 0x40, 0x00, 64, 6, 0, 0, 10, 0, 0, 1, 10, 0, 0, 2]);
    f.extend_from_slice(&[0x1e, 0x61, 0x30, 0x39]);
    f.extend_from_slice(&[0, 0, 0x03, 0xe8, 0, 0, 0x07, 0xd0]);
    f.extend_from_slice(&[0x50, 0x18, 0xff, 0xff, 0, 0, 0, 0]);
    f.extend_from_slice(payload);
    f
}

#[test]
fn add_carry_folds_the_carry() {
    assert_eq!(add_carry(0x1234, 0x1111), 0x2345);
    assert_eq!(add_carry(0xffff, 0x0001), 0x0001);
    assert_eq!(add_carry(0xffff, 0xffff), 0xffff);
    assert_eq!(add_carry(0, 0), 0);
    assert_eq!(add_carry(0x2_0000, 0x5), 0x7);
}

#[test]
fn fold_csum_complements_the_folded_sum() {
    assert_eq!(fold_csum(0), 0xffff);
    assert_eq!(fold_csum(0xffff), 0);
    assert_eq!(fold_csum(0x2ddf0), 0x220d);
    assert_eq!(fold_csum(0x1_fffe), 0);
    assert_eq!(fold_csum(0xffff_ffff), 0);
    assert_eq!(fold_csum(0x1234), 0xedcb);
}

#[test]
fn sum_words_pads_an_odd_byte() {
    let buf = vec![0x00, 0x01, 0xf2, 0x03, 0xf4, 0xf5, 0xf6, 0xf7];
    assert_eq!(sum_words(&buf, 0, 8), 0xddf2);
    assert_eq!(sum_words(&buf, 1, 3), 0x01f2 + 0x0300);
    assert_eq!(sum_words(&buf, 2, 0), 0);
    assert_eq!(sum_words(&vec![0xab], 0, 1), 0xab00);
}

#[test]
fn ptr_at_checks_the_span() {
    let buf = vec![0u8; 10];
    assert!(ptr_at(&buf, 0, 10));
    assert!(ptr_at(&buf, 10, 0));
    assert!(!ptr_at(&buf, 5, 6));
    assert!(!ptr_at(&buf, 11, 0));
    assert!(!ptr_at(&buf, usize::MAX, 2));
    assert!(!ptr_at(&buf, 2, usize::MAX));
}

#[test]
fn big_endian_reads_and_writes() {
    let mut buf = vec![0x12, 0x34, 0x56, 0x78, 0x9a];
    assert_eq!(read_be16(&buf, 1), 0x3456);
    assert_eq!(read_be32(&buf, 1), 0x3456789a);
    write_be16(&mut buf, 0, 0xbeef);
    assert_eq!(buf, vec![0xbe, 0xef, 0x56, 0x78, 0x9a]);
    write_be32(&mut buf, 1, 0x0102_0304);
    assert_eq!(buf, vec![0xbe, 0x01, 0x02, 0x03, 0x04]);
}

#[test]
fn locate_headers_reads_the_layout() {
    let buf = sample_frame(b"hello");
    let l = locate_headers(&buf).unwrap();
    assert_eq!(
        l,
        Layout { ip_hdr_len: 20, tcp_hdr_len: 20, ip_total_len: 45 }
    );
    assert_eq!(l.tcp_offset(), 34);
    assert_eq!(l.payload_offset(), 54);
    assert_eq!(l.payload_length(), 5);
    assert_eq!(get_ports(&buf, &l), (7777, 12345));
}

#[test]
fn locate_headers_rejects_a_datagram_past_the_end() {
    let mut buf = sample_frame(b"hello");
    buf.pop();
    assert_eq!(locate_headers(&buf), None);
}

#[test]
fn locate_headers_rejects_a_short_tcp_header() {
    let mut buf = sample_frame(b"hello");
    buf[46] = 0x40;
    assert_eq!(locate_headers(&buf), None);
}

#[test]
fn swaps_exchange_the_fields() {
    let mut buf = sample_frame(b"hi");
    let l = locate_headers(&buf).unwrap();
    swap_macaddrs(&mut buf);
    assert_eq!(&buf[0..12], &[11, 12, 13, 14, 15, 16, 1, 2, 3, 4, 5, 6]);
    swap_ipv4addrs(&mut buf);
    assert_eq!(&buf[26..34], &[10, 0, 0, 2, 10, 0, 0, 1]);
    swap_ports(&mut buf, &l);
    assert_eq!(&buf[34..38], &[0x30, 0x39, 0x1e, 0x61]);
    assert_eq!(&buf[38..], &sample_frame(b"hi")[38..]);
}

#[test]
fn rewrite_payload_needs_equal_length() {
    let original = sample_frame(b"abc");
    let mut buf = original.clone();
    let l = locate_headers(&buf).unwrap();
    assert_eq!(rewrite_payload(&mut buf, &l, b"abcd"), Err(()));
    assert_eq!(buf, original);
    assert_eq!(rewrite_payload(&mut buf, &l, b"xyz"), Ok(()));
    assert_eq!(&buf[54..], b"xyz");
    assert_eq!(&buf[..54], &original[..54]);
}

#[test]
fn rewrite_seq_ack_and_flags() {
    let mut buf = sample_frame(b"abc");
    buf[47] = 0x03;
    let l = locate_headers(&buf).unwrap();
    rewrite_seq_ack(&mut buf, &l);
    assert_eq!(read_be32(&buf, 38), 2000);
    assert_eq!(read_be32(&buf, 42), 1000 + 3 + 2);
    rewrite_flags(&mut buf, &l);
    assert_eq!(buf[47], 0x10);
}

#[test]
fn recalc_ipv4_csum_gives_the_known_value() {
    let mut buf = vec![0u8; 14];
    buf[12] = 0x08;
    buf.extend_from_slice(&[
        0x45, 0x00, 0x00, 0x73, 0x00, 0x00, 0x40, 0x00, 0x40, 0x11, 0x00, 0x00, 0xc0, 0xa8,
        0x00, 0x01, 0xc0, 0xa8, 0x00, 0xc7,
    ]);
    let l = Layout { ip_hdr_len: 20, tcp_hdr_len: 20, ip_total_len: 0x73 };
    buf[23] = 6;
    buf.resize(14 + 0x73, 0);
    buf[46] = 0x50;
    let before = buf.clone();
    assert_eq!(locate_headers(&buf), Some(l));
    // the protocol byte is part of the sum; with UDP's 0x11 the checksum is 0xb861
    recalc_ipv4_csum(&mut buf, &l);
    assert_eq!(read_be16(&buf, 24), 0xb861 + 0x11 - 0x06);
    assert_eq!(&buf[..24], &before[..24]);
    assert_eq!(&buf[26..], &before[26..]);
}

#[test]
fn recalc_tcp_csum_gives_the_known_value() {
    let mut buf = sample_frame(b"abc");
    let l = locate_headers(&buf).unwrap();
    buf[50] = 0x12;
    buf[51] = 0x34;
    recalc_tcp_csum(&mut buf, &l);
    // pseudo-header 0x0a00+0x0001+0x0a00+0x0002+6+23, segment words summed by hand
    let words: u32 = 0x1e61 + 0x3039 + 0x0000 + 0x03e8 + 0x0000 + 0x07d0 + 0x5018 + 0xffff
        + 0x6162 + 0x6300;
    let pseudo: u32 = 0x0a00 + 0x0001 + 0x0a00 + 0x0002 + 6 + 23;
    let mut s = words + pseudo;
    while s > 0xffff {
        s = (s & 0xffff) + (s >> 16);
    }
    assert_eq!(read_be16(&buf, 50), !(s as u16));
}
