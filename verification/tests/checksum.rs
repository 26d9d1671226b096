use rustic_stack::utils::checksum16;

const HEADER: [u8; 20] = [
    0x45, 0x00, 0x00, 0x73, 0x00, 0x00, 0x40, 0x00, 0x40, 0x11, 0xb8, 0x61, 0xc0, 0xa8, 0x00, 0x01,
    0xc0, 0xa8, 0x00, 0xc7,
];

#[test]
fn checksum_of_nothing_is_all_ones() {
    assert_eq!(checksum16(&[], 0), 0xffff);
}

#[test]
fn checksum_of_known_header() {
    let mut header = HEADER;
    header[10] = 0;
    header[11] = 0;
    assert_eq!(checksum16(&header, 0), 0xb861);
}

#[test]
fn checksum_of_header_with_its_checksum_is_zero() {
    assert_eq!(checksum16(&HEADER, 0), 0);
}

#[test]
fn checksum_reads_big_endian_words() {
    assert_eq!(checksum16(&[0x12, 0x34], 0), !0x1234u16);
    assert_eq!(checksum16(&[0x12, 0x34, 0x00, 0x01], 0), !0x1235u16);
}

#[test]
fn checksum_pads_an_odd_byte_on_the_right() {
    assert_eq!(checksum16(&[0xab], 0), !0xab00u16);
    assert_eq!(checksum16(&[0x00, 0x01, 0xab], 0), !0xab01u16);
}

#[test]
fn checksum_folds_carries() {
    // 0xffff + 0x0001 = 0x1_0000, folded to 0x0001
    assert_eq!(checksum16(&[0xff, 0xff, 0x00, 0x01], 0), !0x0001u16);
    // 0xffff + 0xffff = 0x1_fffe, folded to 0xffff
    assert_eq!(checksum16(&[0xff, 0xff, 0xff, 0xff], 0), 0x0000);
}

#[test]
fn checksum_adds_the_seed() {
    assert_eq!(checksum16(&[0x00, 0x01], 0x0000_0010), !0x0011u16);
    // a seed above 16 bits is folded too: 0x0001_0002 + 0x0001 -> 0x0002 + 0x0001 + 0x0001
    assert_eq!(checksum16(&[0x00, 0x01], 0x0001_0002), !0x0004u16);
    assert_eq!(checksum16(&[], 0xffff_ffff), !0xffffu16);
}

#[test]
fn checksum_appended_makes_zero() {
    let data: [u8; 6] = [0xde, 0xad, 0xbe, 0xef, 0x12, 0x34];
    for seed in [0u32, 1, 0xffff, 0x1_0000, 0xdead_beef] {
        let sum = checksum16(&data, seed);
        let mut with_sum = data.to_vec();
        with_sum.push((sum >> 8) as u8);
        with_sum.push((sum & 0xff) as u8);
        assert_eq!(checksum16(&with_sum, seed), 0);
    }
}

#[test]
fn checksum_inserted_at_an_even_offset_makes_zero() {
    let head: [u8; 4] = [0x01, 0x02, 0x03, 0x04];
    let tail: [u8; 5] = [0x05, 0x06, 0x07, 0x08, 0x09];
    let mut without = head.to_vec();
    without.extend_from_slice(&tail);
    let sum = checksum16(&without, 0);
    let mut with_sum = head.to_vec();
    with_sum.push((sum >> 8) as u8);
    with_sum.push((sum & 0xff) as u8);
    with_sum.extend_from_slice(&tail);
    assert_eq!(checksum16(&with_sum, 0), 0);
}

#[test]
fn checksum_of_a_long_buffer() {
    let data = vec![0xffu8; 200_000];
    // 100000 words of 0xffff sum to a multiple of 0xffff: folded 0xffff
    assert_eq!(checksum16(&data, 0), 0);
}
