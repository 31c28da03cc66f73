use ciebii_lib::chunk::Chunk;
use ciebii_lib::error::{ChunkError, ErrorKind};
use ciebii_lib::rgb::RGB;

#[test]
fn create_new_chunk() {
    let chunk = Chunk::new(255, 0, 0);
    assert_eq!(chunk.rgb(), RGB::new(255, 0, 0));
    assert_eq!(chunk.checksum(), 252);
    assert_eq!(chunk.as_bytes(), [255, 0, 0, 0, 252]);
}

#[test]
fn try_from_invalid_len() {
    let data: Vec<u8> = vec![1, 2, 3];

    let chunk = Chunk::try_from(&data[..]);

    assert!(chunk.is_err());

    if let ChunkError::InvalidLen = chunk.unwrap_err() {
    } else {
        panic!()
    }
}

#[test]
fn try_from_checksum_fail() {
    let data: Vec<u8> = vec![171, 205, 239, 255, 239];

    let chunk = Chunk::try_from(&data[..]);

    assert!(chunk.is_err());

    if let ChunkError::ChecksumFail = chunk.unwrap_err() {
    } else {
        panic!()
    }
}

#[test]
fn try_from_successfully() {
    let data: Vec<u8> = vec![171, 205, 239, 0, 239];

    let chunk = Chunk::try_from(&data[..]);

    assert!(chunk.is_ok());

    let chunk = chunk.unwrap();

    assert_eq!(chunk.rgb(), RGB::new(0xAB, 0xCD, 0xEF));
}

#[test]
fn chunk_of_too_many_bytes_is_refused() {
    let data: Vec<u8> = vec![171, 205, 239, 0, 239, 0];
    let e = Chunk::try_from(&data[..]).unwrap_err();
    assert_eq!(e.kind(), ErrorKind::InvalidLen);
    let none: Vec<u8> = Vec::new();
    assert_eq!(Chunk::try_from(&none[..]).unwrap_err().kind(), ErrorKind::InvalidLen);
}

#[test]
fn chunk_round_trips_through_its_bytes() {
    for (r, g, b) in [(0u8, 0u8, 0u8), (255, 255, 255), (0x12, 0x34, 0x56), (1, 2, 3)] {
        let chunk = Chunk::new(r, g, b);
        let bytes = chunk.as_bytes();
        assert_eq!(bytes.len(), 5);
        let back = Chunk::try_from(&bytes[..]).unwrap();
        assert_eq!(back, chunk);
        assert_eq!(back.rgb().color(), (r, g, b));
        assert_eq!(back.checksum(), chunk.checksum());
    }
}

#[test]
fn chunk_checksum_is_stored_big_endian() {
    // The checksum of (1, 2, 3) is 502: 0x01 0xF6 on the wire.
    let chunk = Chunk::new(1, 2, 3);
    assert_eq!(chunk.checksum(), 502);
    assert_eq!(chunk.as_bytes(), [1, 2, 3, 1, 246]);
    assert_eq!(Chunk::new(0x12, 0x34, 0x56).as_bytes(), [18, 52, 86, 2, 32]);
}

#[test]
fn changed_last_colour_byte_is_caught() {
    let bytes = Chunk::new(0x69, 0x42, 0x00).as_bytes();
    for b in 1..=255u8 {
        let mut bad = bytes.clone();
        bad[2] = b;
        let e = Chunk::try_from(&bad[..]).unwrap_err();
        assert_eq!(e.kind(), ErrorKind::ChecksumFail);
    }
}

#[test]
fn changed_colour_byte_is_caught_when_the_checksum_moves() {
    let bytes = Chunk::new(0xAB, 0xCD, 0xEF).as_bytes();
    let mut bad = bytes.clone();
    bad[0] = 0xAC;
    assert_eq!(Chunk::try_from(&bad[..]).unwrap_err().kind(), ErrorKind::ChecksumFail);
    let mut bad = bytes.clone();
    bad[1] = 0x10;
    assert_eq!(Chunk::try_from(&bad[..]).unwrap_err().kind(), ErrorKind::ChecksumFail);
}

#[test]
fn changed_colour_byte_with_the_same_checksum_passes() {
    // (0xAB, 0, 1) and (0xAB, 1, 1) share the checksum 1.
    let a = Chunk::new(0xAB, 0, 1);
    let b = Chunk::new(0xAB, 1, 1);
    assert_eq!(a.checksum(), 1);
    assert_eq!(b.checksum(), 1);
    let mut bytes = a.as_bytes();
    bytes[1] = 1;
    assert_eq!(Chunk::try_from(&bytes[..]).unwrap(), b);
}

#[test]
fn rgb_parts() {
    let rgb = RGB::new(0xFF, 0x80, 0x01);
    assert_eq!(rgb.color(), (0xFF, 0x80, 0x01));
    assert_eq!(rgb.as_bytes(), [0xFF, 0x80, 0x01]);
    assert_eq!(rgb, RGB::new(0xFF, 0x80, 0x01));
    assert_ne!(rgb, RGB::new(0xFF, 0x80, 0x02));
}

#[test]
fn rgb_as_text() {
    assert_eq!(RGB::new(0xAB, 0xCD, 0xEF).to_string(), "#abcdef");
    assert_eq!(RGB::new(255, 128, 0).to_string(), "#ff800");
    assert_eq!(RGB::new(0, 0, 0).to_string(), "#000");
    assert_eq!(RGB::new(1, 0x10, 0x0F).to_string(), "#110f");
    for v in 0..=255u8 {
        let rgb = RGB::new(v, 255 - v, v / 2);
        assert_eq!(rgb.to_string(), format!("#{:x}{:x}{:x}", v, 255 - v, v / 2));
    }
}
