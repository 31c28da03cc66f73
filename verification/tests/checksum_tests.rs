use ciebii_lib::checksum::checksum;

#[test]
fn checksum_of_nothing_is_zero() {
    assert_eq!(checksum(&[]), 0);
}

#[test]
fn checksum_of_known_bytes() {
    assert_eq!(checksum(&[0xAB, 0xCD, 0xEF]), 239);
    assert_eq!(checksum(&[0xFF, 0x00, 0x00]), 252);
    assert_eq!(checksum(&[0x12, 0x34, 0x56]), 544);
    assert_eq!(checksum(&[0x69, 0x42, 0x00]), 449);
    assert_eq!(checksum(&[0xDE, 0xAD, 0xA5]), 447);
    assert_eq!(checksum(&[1, 2, 3]), 502);
}

#[test]
fn checksum_of_one_byte_is_the_byte_mixed_with_the_seed() {
    assert_eq!(checksum(&[0x00]), 0xAB);
    assert_eq!(checksum(&[0xAB]), 0x00);
    assert_eq!(checksum(&[0xFF]), 0x54);
}

#[test]
fn checksum_of_dimensions() {
    let twenty = [0u8, 0, 0, 0, 0, 0, 0, 20, 0, 0, 0, 0, 0, 0, 0, 20];
    assert_eq!(checksum(&twenty), 2161);
    let two = [0u8, 0, 0, 0, 0, 0, 0, 2, 0, 0, 0, 0, 0, 0, 0, 2];
    assert_eq!(checksum(&two), 2375);
}

#[test]
fn checksum_is_the_same_for_the_same_bytes() {
    let a: Vec<u8> = (0..=255u8).collect();
    let b: Vec<u8> = (0..=255u8).collect();
    assert_eq!(checksum(&a), checksum(&b));
    assert_eq!(checksum(&a), checksum(&a));
}

#[test]
fn checksum_takes_the_high_byte_of_the_total_from_the_carried_byte() {
    // 0x00 mixes with the seed to 0xAB and is carried on unchanged. The next
    // 0x00 mixes to 0xAB again and brings the total to 0x156, so 0xAB less 1
    // is carried on. The last 0x00 mixes to 0xAA: 0x156 + 0xAA = 0x200.
    assert_eq!(checksum(&[0, 0]), 0x156);
    assert_eq!(checksum(&[0, 0, 0]), 512);
}

#[test]
fn checksum_wraps_at_sixteen_bits() {
    let data: Vec<u8> = (0..5000u32).map(|i| (i * 31 % 251) as u8).collect();
    let mut total: u32 = 0;
    let mut prev: u8 = 0xAB;
    for b in &data {
        let mixed = *b ^ prev;
        total += mixed as u32;
        prev = mixed.wrapping_sub((total >> 8) as u8);
    }
    assert!(total > 65535);
    assert_eq!(checksum(&data) as u32, total % 65536);
}
