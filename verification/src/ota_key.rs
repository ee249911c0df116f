//! The AES-256 key for encrypted firmware images.
//!
//! The key comes from a file with 64 hexadecimal digits; white space around
//! them does not count.

use crate::text::trim;
use vstd::prelude::*;

verus! {

/// Hexadecimal digits of a key.
pub const KEY_DIGITS: usize = 64;

/// What is wrong with a key file.
#[derive(Debug, Clone, Copy, PartialEq, Eq, Structural)]
pub enum KeyFault {
    /// It does not hold as many bytes as a key has digits.
    Length {
        /// Bytes that it holds.
        got: usize,
    },
    /// It holds a character that is no hexadecimal digit.
    NotHex,
}

/// The byte is a hexadecimal digit: `0` to `9`, `a` to `f` or `A` to `F`.
pub open spec fn is_hex(b: u8) -> bool {
    48 <= b <= 57 || 97 <= b <= 102 || 65 <= b <= 70
}

/// The number that a hexadecimal digit stands for.
pub open spec fn hex_value(b: u8) -> int {
    if b <= 57 {
        b - 48
    } else if b >= 97 {
        b - 87
    } else {
        b - 55
    }
}

/// The bytes of a key file without the white space around them.
pub open spec fn digits_of(contents: Seq<char>) -> Seq<u8> {
    vstd::utf8::encode_utf8(crate::text::trimmed(contents))
}

/// The contents of a key file are a key.
pub open spec fn is_key(contents: Seq<char>) -> bool {
    &&& digits_of(contents).len() == KEY_DIGITS
    &&& forall|i: int| 0 <= i < KEY_DIGITS ==> is_hex(#[trigger] digits_of(contents)[i])
}

/// The bytes that pairs of hexadecimal digits stand for.
pub open spec fn bytes_of(digits: Seq<u8>) -> Seq<u8> {
    Seq::new(
        digits.len() / 2,
        |i: int| (hex_value(digits[2 * i]) * 16 + hex_value(digits[2 * i + 1])) as u8,
    )
}

/// The number that a hexadecimal digit stands for.
pub fn hex_nibble(b: u8) -> (r: u8)
    requires
        is_hex(b),
    ensures
        r == hex_value(b),
        r < 16,
{
    if b <= 57 {
        b - 48
    } else if b >= 97 {
        b - 97 + 10
    } else {
        b - 65 + 10
    }
}

/// Checks the contents of a key file.
pub fn check_key(contents: &str) -> (r: Result<(), KeyFault>)
    ensures
        r is Ok <==> is_key(contents@),
        digits_of(contents@).len() != KEY_DIGITS ==> (r matches Err(KeyFault::Length { got }) && got
            == digits_of(contents@).len()),
        digits_of(contents@).len() == KEY_DIGITS && !is_key(contents@) ==> (r matches Err(
            KeyFault::NotHex,
        )),
{
    let bytes: &[u8] = trim(contents).as_bytes();
    if bytes.len() != KEY_DIGITS {
        return Err(KeyFault::Length { got: bytes.len() });
    }
    let mut i: usize = 0;
    while i < KEY_DIGITS
        invariant
            bytes@ == digits_of(contents@),
            bytes@.len() == KEY_DIGITS,
            i <= KEY_DIGITS,
            forall|j: int| 0 <= j < i ==> is_hex(#[trigger] digits_of(contents@)[j]),
        decreases KEY_DIGITS - i,
    {
        let b: u8 = bytes[i];
        if !(48 <= b && b <= 57 || 97 <= b && b <= 102 || 65 <= b && b <= 70) {
            assert(!is_hex(digits_of(contents@)[i as int]));
            return Err(KeyFault::NotHex);
        }
        i += 1;
    }
    Ok(())
}

/// The key in a key file that was checked.
pub fn ota_aes_key(contents: &str) -> (r: [u8; 32])
    requires
        is_key(contents@),
    ensures
        r@ == bytes_of(digits_of(contents@)),
{
    let bytes: &[u8] = trim(contents).as_bytes();
    let mut out: [u8; 32] = [0u8; 32];
    let mut i: usize = 0;
    while i < 32
        invariant
            is_key(contents@),
            bytes@ == digits_of(contents@),
            i <= 32,
            forall|j: int| 0 <= j < i ==> #[trigger] out@[j] == bytes_of(bytes@)[j],
        decreases 32 - i,
    {
        assert(is_hex(digits_of(contents@)[2 * i as int]));
        assert(is_hex(digits_of(contents@)[2 * i as int + 1]));
        let high: u8 = hex_nibble(bytes[i * 2]);
        let low: u8 = hex_nibble(bytes[i * 2 + 1]);
        assert((high << 4) | low == high * 16 + low) by (bit_vector)
            requires
                high < 16,
                low < 16,
        ;
        out[i] = (high << 4) | low;
        i += 1;
    }
    assert(out@ =~= bytes_of(digits_of(contents@)));
    out
}

/// A key that was written down in hexadecimal, with a line break behind it, is
/// read back.
pub proof fn law_key_read_back(key: Seq<u8>)
    requires
        key.len() == 32,
    ensures
        is_key(crate::text::upper_hex(key) + seq!['\n']),
        bytes_of(digits_of(crate::text::upper_hex(key) + seq!['\n'])) == key,
{
    let hex = crate::text::upper_hex(key);
    let contents = hex + seq!['\n'];
    assert forall|i: int| 0 <= i < 64 implies #[trigger] is_digit_of(hex[i], key, i) by {}
    assert(is_digit_of(hex[0], key, 0));
    assert(is_digit_of(hex[63], key, 63));
    assert(contents[0] == hex[0]);
    assert(crate::text::trimmed_start(contents) == contents);
    assert(contents.drop_last() =~= hex);
    assert(crate::text::is_white_space('\n'));
    reveal_with_fuel(crate::text::trimmed_end, 3);
    assert(crate::text::trimmed(contents) == hex);
    crate::text::lemma_hex_is_ascii(key);
    vstd::utf8::is_ascii_chars_encode_utf8(hex);
    let digits = digits_of(contents);
    assert(digits.len() == 64);
    assert forall|i: int| 0 <= i < 64 implies is_hex(#[trigger] digits[i]) && hex_value(digits[i])
        == (if i % 2 == 0 {
        key[i / 2] as int / 16
    } else {
        key[i / 2] as int % 16
    }) by {
        assert(is_digit_of(hex[i], key, i));
        assert(digits[i] == hex[i] as u8);
    }
    assert forall|i: int| 0 <= i < 32 implies bytes_of(digits)[i] == key[i] by {
        let even = 2 * i;
        let odd = 2 * i + 1;
        assert(even / 2 == i && odd / 2 == i && even % 2 == 0 && odd % 2 == 1);
        assert(is_hex(digits[even]) && is_hex(digits[odd]));
    }
    assert(bytes_of(digits) =~= key);
}

/// The character is the hexadecimal digit of a key at this place.
spec fn is_digit_of(c: char, key: Seq<u8>, i: int) -> bool {
    let n = c as u32;
    let d = if i % 2 == 0 {
        key[i / 2] as int / 16
    } else {
        key[i / 2] as int % 16
    };
    n == if d < 10 {
        48 + d
    } else {
        55 + d
    }
}

/// A hexadecimal digit stands for the same number in upper and in lower case:
/// `0` to `9` for 0 to 9, and `a` to `f` for 10 to 15.
pub proof fn law_hex_digits(b: u8, r: u8, other: u8, same: u8)
    requires
        48 <= b <= 57 || 65 <= b <= 70 || 97 <= b <= 102,
        65 <= other <= 70,
        call_ensures(hex_nibble, (b,), r),
        call_ensures(hex_nibble, (other,), same),
    ensures
        b <= 57 ==> r == b - 48,
        b == other + 32 ==> r == same,
        same == other - 55,
        b >= 97 ==> r == b - 87,
{
}

/// A key file holds 64 hexadecimal digits, and each pair of them is a byte of the
/// key, the first digit of a pair being the higher one. A key that was written
/// down in hexadecimal is read back.
pub proof fn law_key_file(
    contents: &str,
    r: Result<(), KeyFault>,
    key: [u8; 32],
    wanted: Seq<u8>,
)
    requires
        call_ensures(check_key, (contents,), r),
        r is Ok ==> call_ensures(ota_aes_key, (contents,), key),
    ensures
        ({
            let digits = vstd::utf8::encode_utf8(crate::text::trimmed(contents@));
            &&& r is Ok ==> digits.len() == 64
            &&& digits.len() != 64 ==> (r matches Err(KeyFault::Length { got }) && got
                == digits.len())
            &&& r is Ok ==> forall|i: int|
                0 <= i < 64 ==> 48 <= #[trigger] digits[i] <= 57 || 65 <= digits[i] <= 70 || 97
                    <= digits[i] <= 102
            &&& digits.len() == 64 && (forall|i: int|
                0 <= i < 64 ==> 48 <= #[trigger] digits[i] <= 57 || 65 <= digits[i] <= 70 || 97
                    <= digits[i] <= 102) ==> r is Ok
        }),
        wanted.len() == 32 && contents@ == crate::text::upper_hex(wanted) + seq!['\n'] ==> r is Ok
            && key@ == wanted,
{
    let digits = digits_of(contents@);
    if r is Ok {
        assert forall|i: int| 0 <= i < 64 implies 48 <= #[trigger] digits[i] <= 57 || 65
            <= digits[i] <= 70 || 97 <= digits[i] <= 102 by {
            assert(is_hex(digits_of(contents@)[i]));
        }
    }
    if wanted.len() == 32 && contents@ == crate::text::upper_hex(wanted) + seq!['\n'] {
        law_key_read_back(wanted);
    }
}

} // verus!
