//! Firmware logic of a WiFi and NFC controlled e-ink display.

use vstd::prelude::*;
use vstd::string::*;

pub mod decoding;
pub mod encrypted_flash;
pub mod nvs;
pub mod ota;
pub mod ota_http;
pub mod ota_key;
pub mod secure_flash;
pub mod short_text;
pub mod tasks;
pub mod text;

verus! {

/// What the NFC task tells the WiFi task.
#[derive(Debug, Clone, Copy, PartialEq, Eq, Structural)]
pub enum NotificationType {
    /// New WiFi credentials were stored.
    WifiCredentials,
    /// A new text was stored.
    DisplayText,
    /// A new address was stored.
    DisplayURL,
    /// Live updates were asked for.
    LiveSecureUpdates,
}

/// The name of a device: its MAC address in hexadecimal, such as
/// `80F1B2ECB820`.
pub fn device_client_id(mac: [u8; 6]) -> (r: heapless::String<12>)
    ensures
        short_text::name_of(r) == text::upper_hex(mac@),
        short_text::name_of(r).len() == 12,
{
    let ghost all = text::upper_hex(mac@);
    let mut name: heapless::String<12> = short_text::empty_name();
    let mut i: usize = 0;
    proof {
        text::lemma_hex_is_ascii(mac@);
        assert(all.take(0) =~= Seq::<char>::empty());
    }
    while i < 6
        invariant
            i <= 6,
            all == text::upper_hex(mac@),
            vstd::utf8::is_ascii_chars(all),
            short_text::name_of(name) == all.take(2 * i),
        decreases 6 - i,
    {
        let byte: u8 = mac[i];
        proof {
            let even = 2 * i as int;
            assert(even / 2 == i && (even + 1) / 2 == i && even % 2 == 0 && (even + 1) % 2 == 1);
            assert(all.take(even) + seq![all[even]] =~= all.take(even + 1));
            assert(all.take(even + 1) + seq![all[even + 1]] =~= all.take(even + 2));
            vstd::utf8::is_ascii_chars_encode_utf8(all.take(even + 1));
            vstd::utf8::is_ascii_chars_encode_utf8(all.take(even + 2));
        }
        short_text::append_to_name(&mut name, text::digit_text(byte / 16));
        short_text::append_to_name(&mut name, text::digit_text(byte % 16));
        i += 1;
    }
    assert(all.take(12) =~= all);
    name
}

/// Every device has a name of its own: names are the same only where MAC
/// addresses are.
pub proof fn law_names_differ(a: [u8; 6], b: [u8; 6])
    ensures
        text::upper_hex(a@) == text::upper_hex(b@) <==> a@ == b@,
{
    if text::upper_hex(a@) == text::upper_hex(b@) {
        text::law_hex_is_unique(a@, b@);
    }
}

/// The name of a device is its MAC address: two upper case hexadecimal digits for
/// each byte, in order.
pub proof fn law_name_spells_mac(mac: [u8; 6], r: heapless::String<12>)
    requires
        call_ensures(device_client_id, (mac,), r),
    ensures
        short_text::name_of(r).len() == 12,
        forall|i: int|
            0 <= i < 12 ==> {
                let c = #[trigger] short_text::name_of(r)[i] as u32;
                let d = if i % 2 == 0 {
                    mac@[i / 2] as int / 16
                } else {
                    mac@[i / 2] as int % 16
                };
                if d < 10 {
                    c == '0' as u32 + d
                } else {
                    c == 'A' as u32 + (d - 10)
                }
            },
{
}

} // verus!
