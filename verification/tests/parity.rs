use frankenstein::parity::modes_crc_ok;

/// An identification message that was received off the air.
const IDENT: [u8; 14] = [
    0x8d, 0x48, 0x40, 0xd6, 0x20, 0x2c, 0xc3, 0x71, 0xc3, 0x2c, 0xe0, 0x57, 0x60, 0x98,
];

/// An airborne position message that was received off the air.
const POSITION: [u8; 14] = [
    0x8d, 0x40, 0x62, 0x1d, 0x58, 0xc3, 0x82, 0xd6, 0x90, 0xc8, 0xac, 0x28, 0x63, 0xa7,
];

#[test]
fn genuine_frames_pass() {
    assert!(modes_crc_ok(&IDENT));
    assert!(modes_crc_ok(&POSITION));
}

#[test]
fn every_single_bit_error_is_noticed() {
    for i in 0..112 {
        let mut frame = IDENT;
        frame[i / 8] ^= 0x80 >> (i % 8);
        assert!(!modes_crc_ok(&frame), "bit {}", i);
    }
}

#[test]
fn bursts_of_three_bytes_are_noticed() {
    for k in 0..12 {
        let mut frame = POSITION;
        frame[k] ^= 0xff;
        frame[k + 1] ^= 0x5a;
        frame[k + 2] ^= 0x01;
        assert!(!modes_crc_ok(&frame), "byte {}", k);
    }
}

#[test]
fn the_generator_itself_passes() {
    assert!(modes_crc_ok(&[0x01, 0xff, 0xf4, 0x09]));
    assert!(modes_crc_ok(&[0x03, 0xff, 0xe8, 0x12]));
    assert!(!modes_crc_ok(&[0x01, 0xff, 0xf4, 0x08]));
    assert!(!modes_crc_ok(&[0x01]));
    assert!(modes_crc_ok(&[0; 14]));
}

#[test]
fn frames_add_up() {
    let sum: Vec<u8> = IDENT.iter().zip(POSITION.iter()).map(|(a, b)| a ^ b).collect();
    assert!(modes_crc_ok(&sum));
}
