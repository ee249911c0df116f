//! The key file and the name of a device.

use wifi_display::device_client_id;
use wifi_display::ota_key::{check_key, hex_nibble, ota_aes_key, KeyFault};
use wifi_display::secure_flash::FlashError;
use wifi_display::text::digit_text;

#[test]
fn name_is_the_mac_address() {
    assert_eq!(device_client_id([0x80, 0xF1, 0xB2, 0xEC, 0xB8, 0x20]), "80F1B2ECB820");
    assert_eq!(device_client_id([0, 1, 2, 3, 4, 0x0A]), "00010203040A");
}

#[test]
fn names_of_two_devices_differ() {
    assert_ne!(
        device_client_id([0x80, 0xF1, 0xB2, 0xEC, 0xB8, 0x20]),
        device_client_id([0x80, 0xF1, 0xB2, 0xEC, 0xB8, 0x21])
    );
}

#[test]
fn key_is_read_from_hexadecimal() {
    let hex = "000102030405060708090a0b0c0d0e0fF0F1F2F3F4F5F6F7F8F9FAFBFCFDFEFF";
    assert_eq!(check_key(hex), Ok(()));
    let key = ota_aes_key(hex);
    for i in 0..16u8 {
        assert_eq!(key[i as usize], i);
        assert_eq!(key[16 + i as usize], 0xF0 + i);
    }
}

#[test]
fn white_space_around_a_key_does_not_count() {
    let contents = format!(" \t\u{a0}{}\r\n\u{3000}", "5A".repeat(32));
    assert_eq!(check_key(&contents), Ok(()));
    assert_eq!(ota_aes_key(&contents), [0x5A; 32]);
}

#[test]
fn malformed_keys() {
    assert_eq!(check_key(""), Err(KeyFault::Length { got: 0 }));
    assert_eq!(check_key(&"a".repeat(63)), Err(KeyFault::Length { got: 63 }));
    assert_eq!(check_key(&format!("{}g", "a".repeat(63))), Err(KeyFault::NotHex));
    assert_eq!(check_key(&format!("{} {}", "a".repeat(31), "a".repeat(32))), Err(KeyFault::NotHex));
    // Two bytes, so that the length is right.
    assert_eq!(check_key(&format!("{}\u{e9}", "a".repeat(62))), Err(KeyFault::NotHex));
}

#[test]
fn digits() {
    assert_eq!(hex_nibble(b'7'), 7);
    assert_eq!(hex_nibble(b'c'), 12);
    assert_eq!(hex_nibble(b'F'), 15);
    assert_eq!(digit_text(13), "D");
}

#[test]
fn flash_errors_in_words() {
    assert_eq!(FlashError::OutOfBounds.message(), "out of bounds");
    assert_eq!(FlashError::NotAligned.message(), "not aligned");
    assert_eq!(FlashError::Locked.message(), "flash locked");
    assert_eq!(FlashError::Hardware(0).message(), "hardware error rc=0");
    assert_eq!(FlashError::Hardware(1042).message(), "hardware error rc=1042");
    assert_eq!(FlashError::Hardware(i32::MIN).message(), "hardware error rc=-2147483648");
}
