//! Settings that outlive a reboot, as the bytes that are stored for them.
//!
//! Flags and modes are single bytes, integers are little-endian. Erased flash
//! reads as `0xFF`, which stands for a setting that was never stored. What
//! could not be read is `None`.

use crate::short_text::{empty_list, short_text, size_of, ssid_text, MAX_SSID_SIZE};
use vstd::prelude::*;
use vstd::string::*;

verus! {

// =============================================================================
// Display mode
// =============================================================================

/// What the device shows. It is stored so that the device comes back in the
/// same mode after a reboot.
#[derive(Debug, Clone, Copy, PartialEq, Eq, Structural)]
pub enum DisplayMode {
    /// Live updates over MQTT.
    LiveUpdates,
    /// A text that came by NFC.
    CustomText,
    /// An address that came by NFC, as QR code.
    QRCode,
}

impl DisplayMode {
    /// The byte that is stored for the mode.
    pub open spec fn code(self) -> u8 {
        match self {
            DisplayMode::LiveUpdates => 0,
            DisplayMode::CustomText => 1,
            DisplayMode::QRCode => 2,
        }
    }

    /// The byte that is stored for the mode.
    pub fn as_byte(self) -> (r: u8)
        ensures
            r == self.code(),
    {
        match self {
            DisplayMode::LiveUpdates => 0,
            DisplayMode::CustomText => 1,
            DisplayMode::QRCode => 2,
        }
    }

    /// The mode that a byte is stored for.
    pub fn from_byte(byte: u8) -> (r: Option<Self>)
        ensures
            r == Self::decoded(byte),
    {
        match byte {
            0 => Some(DisplayMode::LiveUpdates),
            1 => Some(DisplayMode::CustomText),
            2 => Some(DisplayMode::QRCode),
            _ => None,
        }
    }

    /// The mode that a byte is stored for.
    pub open spec fn decoded(byte: u8) -> Option<Self> {
        if byte == 0 {
            Some(DisplayMode::LiveUpdates)
        } else if byte == 1 {
            Some(DisplayMode::CustomText)
        } else if byte == 2 {
            Some(DisplayMode::QRCode)
        } else {
            None
        }
    }
}

/// The mode that is stored; live updates if there is none.
pub open spec fn stored_mode(data: Option<Seq<u8>>) -> DisplayMode {
    match data {
        Some(bytes) => match DisplayMode::decoded(bytes[0]) {
            Some(mode) => mode,
            None => DisplayMode::LiveUpdates,
        },
        None => DisplayMode::LiveUpdates,
    }
}

/// The bytes that were read, if any were.
pub open spec fn bytes_of(data: Option<&[u8]>) -> Option<Seq<u8>> {
    match data {
        Some(bytes) => Some(bytes@),
        None => None,
    }
}

/// The stored mode; live updates if there is none.
pub fn load_display_mode(data: Option<&[u8]>) -> (r: DisplayMode)
    requires
        data matches Some(bytes) ==> bytes@.len() >= 1,
    ensures
        r == stored_mode(bytes_of(data)),
{
    match data {
        Some(bytes) => match DisplayMode::from_byte(bytes[0]) {
            Some(mode) => mode,
            None => DisplayMode::LiveUpdates,
        },
        None => DisplayMode::LiveUpdates,
    }
}

/// The bytes to store for a mode.
pub fn set_display_mode(mode: DisplayMode) -> (r: [u8; 1])
    ensures
        r@ == seq![mode.code()],
{
    let r: [u8; 1] = [mode.as_byte()];
    assert(r@ =~= seq![mode.code()]);
    r
}

/// A stored mode is read back.
pub proof fn law_mode_read_back(mode: DisplayMode, rest: Seq<u8>)
    ensures
        stored_mode(Some(seq![mode.code()] + rest)) == mode,
{
}

// =============================================================================
// What came by NFC
// =============================================================================

/// A record from the NFC tag.
#[derive(Debug)]
pub enum NfcData {
    /// Name and password of a WiFi network.
    Wifi(String, String),
    /// A text.
    Text(String),
    /// An address.
    Uri(String),
    /// Something else.
    Unknown,
}

/// Why a stored record is not there.
#[derive(Debug, Clone, Copy, PartialEq, Eq, Structural)]
pub enum RecordFault {
    /// It could not be read.
    Unreadable,
    /// It could not be parsed.
    Malformed,
}

/// Whether a text takes at most `max` bytes.
fn takes_at_most(text: &str, max: usize) -> (r: bool)
    ensures
        r == (size_of(text@) <= max),
{
    text.as_bytes().len() <= max
}

/// Name and password of a WiFi network, from a stored record, or what is wrong
/// with it.
pub open spec fn stored_credentials(record: Result<NfcData, RecordFault>) -> Result<
    (Seq<char>, Seq<char>),
    Seq<char>,
> {
    match record {
        Err(RecordFault::Unreadable) => Err("Failed to read WiFi credentials from storage"@),
        Err(RecordFault::Malformed) => Err("Failed to parse WiFi credentials"@),
        Ok(NfcData::Wifi(ssid, password)) => if size_of(ssid@) > MAX_SSID_SIZE {
            Err("Failed to convert SSID to String"@)
        } else if !crate::short_text::fits(password@) {
            Err("Failed to convert password to String"@)
        } else {
            Ok((ssid@, password@))
        },
        Ok(_) => Err("Storage contains non-WiFi credential data"@),
    }
}

/// The WiFi credentials in a stored record.
pub fn load_wifi_credentials(record: Result<NfcData, RecordFault>) -> (r: Result<
    (heapless::String<32>, heapless::String<64>),
    &'static str,
>)
    ensures
        match stored_credentials(record) {
            Ok((ssid, password)) => r matches Ok(c) && crate::short_text::ssid_of(c.0) == ssid
                && crate::short_text::text_of(c.1) == password,
            Err(fault) => r matches Err(e) && e@ == fault,
        },
{
    match record {
        Err(RecordFault::Unreadable) => Err("Failed to read WiFi credentials from storage"),
        Err(RecordFault::Malformed) => Err("Failed to parse WiFi credentials"),
        Ok(NfcData::Wifi(ssid, password)) => {
            let name: heapless::String<32> = match ssid_text(ssid.as_str()) {
                Some(name) => name,
                None => {
                    return Err("Failed to convert SSID to String");
                },
            };
            match short_text(password.as_str()) {
                Some(p) => Ok((name, p)),
                None => Err("Failed to convert password to String"),
            }
        },
        Ok(_) => Err("Storage contains non-WiFi credential data"),
    }
}

/// The text in a stored record, or what is wrong with it.
pub open spec fn stored_display_text(record: Result<NfcData, RecordFault>, max: int) -> Result<
    Seq<char>,
    Seq<char>,
> {
    match record {
        Err(RecordFault::Unreadable) => Err("Failed to read display text from storage"@),
        Err(RecordFault::Malformed) => Err("Failed to parse display text"@),
        Ok(NfcData::Text(text)) => if size_of(text@) > max {
            Err("Failed to convert text to String or text too long"@)
        } else {
            Ok(text@)
        },
        Ok(_) => Err("Storage contains non-text data"@),
    }
}

/// The text in a stored record, of at most `max` bytes.
pub fn load_display_text(record: Result<NfcData, RecordFault>, max: usize) -> (r: Result<
    String,
    &'static str,
>)
    ensures
        match stored_display_text(record, max as int) {
            Ok(text) => r matches Ok(t) && t@ == text,
            Err(fault) => r matches Err(e) && e@ == fault,
        },
{
    match record {
        Err(RecordFault::Unreadable) => Err("Failed to read display text from storage"),
        Err(RecordFault::Malformed) => Err("Failed to parse display text"),
        Ok(NfcData::Text(text)) => if takes_at_most(text.as_str(), max) {
            Ok(text)
        } else {
            Err("Failed to convert text to String or text too long")
        },
        Ok(_) => Err("Storage contains non-text data"),
    }
}

/// The address in a stored record, or what is wrong with it.
pub open spec fn stored_display_url(record: Result<NfcData, RecordFault>, max: int) -> Result<
    Seq<char>,
    Seq<char>,
> {
    match record {
        Err(RecordFault::Unreadable) => Err("Failed to read display URL from storage"@),
        Err(RecordFault::Malformed) => Err("Failed to parse display URL"@),
        Ok(NfcData::Uri(url)) => if size_of(url@) > max {
            Err("Failed to convert URL to String or URL too long"@)
        } else {
            Ok(url@)
        },
        Ok(_) => Err("Storage contains non-URL data"@),
    }
}

/// The address in a stored record, of at most `max` bytes.
pub fn load_display_url(record: Result<NfcData, RecordFault>, max: usize) -> (r: Result<
    String,
    &'static str,
>)
    ensures
        match stored_display_url(record, max as int) {
            Ok(url) => r matches Ok(u) && u@ == url,
            Err(fault) => r matches Err(e) && e@ == fault,
        },
{
    match record {
        Err(RecordFault::Unreadable) => Err("Failed to read display URL from storage"),
        Err(RecordFault::Malformed) => Err("Failed to parse display URL"),
        Ok(NfcData::Uri(url)) => if takes_at_most(url.as_str(), max) {
            Ok(url)
        } else {
            Err("Failed to convert URL to String or URL too long")
        },
        Ok(_) => Err("Storage contains non-URL data"),
    }
}

// =============================================================================
// MQTT topics
// =============================================================================

/// Topics that are remembered at most.
pub const MAX_DYNAMIC_TOPICS: usize = 4;

/// Bytes for stored topics.
pub const MQTT_TOPICS_STORAGE_SIZE: usize = 512;

/// The bytes of one stored topic: how many there are, and these.
pub open spec fn topic_bytes(topic: Seq<char>) -> Seq<u8> {
    seq![size_of(topic) as u8] + vstd::utf8::encode_utf8(topic)
}

/// The bytes of stored topics in a row.
pub open spec fn topics_in_a_row(topics: Seq<Seq<char>>) -> Seq<u8>
    decreases topics.len(),
{
    if topics.len() == 0 {
        Seq::empty()
    } else {
        topics_in_a_row(topics.drop_last()) + topic_bytes(topics.last())
    }
}

/// The bytes of stored topics: how many there are, and the topics in a row.
pub open spec fn topics_bytes(topics: Seq<Seq<char>>) -> Seq<u8> {
    seq![topics.len() as u8] + topics_in_a_row(topics)
}

/// The topics can be stored: there are not too many, and none is too long.
pub open spec fn storable(topics: Seq<Seq<char>>) -> bool {
    &&& topics.len() <= MAX_DYNAMIC_TOPICS
    &&& forall|i: int|
        0 <= i < topics.len() ==> crate::short_text::fits(#[trigger] topics[i])
}

/// Bytes begin with those of these topics.
pub open spec fn begins_with_topics(payload: Seq<u8>, topics: Seq<Seq<char>>) -> bool {
    storable(topics) && topics_bytes(topics).is_prefix_of(payload)
}

/// A list, if there is one, holds these topics.
pub open spec fn lists(
    list: Option<heapless::Vec<heapless::String<64>, 4>>,
    topics: Option<Seq<Seq<char>>>,
) -> bool {
    match list {
        Some(items) => topics == Some(crate::short_text::texts_of(items)),
        None => topics is None,
    }
}

/// What bytes decode to as a list of topics.
pub uninterp spec fn decoded_topics(payload: Seq<u8>) -> Option<Seq<Seq<char>>>;

/// Encodes topics into the beginning of a buffer and returns how many bytes
/// they took, if they fit.
///
/// Calls `bincode::serde::encode_into_slice` with the standard configuration
/// on the list. A list is encoded as its length and its items, a string as its
/// length and its bytes, and a length below 251 as one byte; there are at most
/// four items of at most 64 bytes, so all lengths are. It fails exactly when
/// the buffer is too small; what it leaves in the buffer then is not stated.
#[verifier::external_body]
fn encode_topics(topics: &heapless::Vec<heapless::String<64>, 4>, out: &mut [u8]) -> (r: Result<
    usize,
    (),
>)
    ensures
        final(out)@.len() == old(out)@.len(),
        r is Ok <==> topics_bytes(crate::short_text::texts_of(*topics)).len() <= old(out)@.len(),
        r matches Ok(n) ==> n == topics_bytes(crate::short_text::texts_of(*topics)).len(),
        r is Ok ==> final(out)@ == crate::secure_flash::splice(
            old(out)@,
            0,
            topics_bytes(crate::short_text::texts_of(*topics)),
        ),
{
    match bincode::serde::encode_into_slice(topics, out, bincode::config::standard()) {
        Ok(n) => Ok(n),
        Err(_) => Err(()),
    }
}

/// Decodes topics from the beginning of bytes.
///
/// Calls `bincode::serde::decode_from_slice` with the standard configuration.
/// The result depends on the bytes alone, and topics that were encoded are
/// decoded again, whatever follows them. Which other bytes are accepted is
/// not stated.
#[verifier::external_body]
fn decode_topics(payload: &[u8]) -> (r: Option<heapless::Vec<heapless::String<64>, 4>>)
    ensures
        lists(r, decoded_topics(payload@)),
        forall|topics: Seq<Seq<char>>| #[trigger]
            begins_with_topics(payload@, topics) ==> lists(r, Some(topics)),
{
    match bincode::serde::decode_from_slice(payload, bincode::config::standard()) {
        Ok((topics, _)) => Some(topics),
        Err(_) => None,
    }
}

/// What stored bytes hold as topics; `decoded` is what they decode to. Erased
/// flash and bytes that cannot be decoded hold none.
pub open spec fn stored_topics(data: Option<Seq<u8>>, decoded: Option<Seq<Seq<char>>>) -> Seq<
    Seq<char>,
> {
    match data {
        Some(bytes) => if bytes[0] == 0xFF {
            Seq::empty()
        } else {
            match decoded {
                Some(topics) => topics,
                None => Seq::empty(),
            }
        },
        None => Seq::empty(),
    }
}

/// The topics in stored bytes; none if they were never stored or cannot be
/// read.
pub fn load_mqtt_topics(data: Option<&[u8]>) -> (r: heapless::Vec<heapless::String<64>, 4>)
    requires
        data matches Some(bytes) ==> bytes@.len() >= 1,
    ensures
        crate::short_text::texts_of(r) == stored_topics(
            bytes_of(data),
            match data {
                Some(bytes) => decoded_topics(bytes@),
                None => None,
            },
        ),
        data matches Some(bytes) ==> forall|topics: Seq<Seq<char>>| #[trigger]
            begins_with_topics(bytes@, topics) ==> crate::short_text::texts_of(r) == topics,
{
    match data {
        Some(bytes) => {
            if bytes[0] == 0xFF {
                proof {
                    assert forall|topics: Seq<Seq<char>>| #[trigger]
                        begins_with_topics(bytes@, topics) implies false by {
                        assert(topics_bytes(topics)[0] == topics.len() as u8);
                    }
                }
                return empty_list();
            }
            match decode_topics(bytes) {
                Some(topics) => topics,
                None => empty_list(),
            }
        },
        None => empty_list(),
    }
}

/// Puts the bytes to store for topics into a buffer and returns how many there
/// are, if they fit.
pub fn save_mqtt_topics(
    topics: &heapless::Vec<heapless::String<64>, 4>,
    out: &mut [u8],
) -> (r: Result<usize, &'static str>)
    ensures
        final(out)@.len() == old(out)@.len(),
        ({
            let bytes = topics_bytes(crate::short_text::texts_of(*topics));
            if bytes.len() <= old(out)@.len() {
                r == Ok::<usize, &'static str>(bytes.len() as usize) && final(out)@
                    == crate::secure_flash::splice(old(out)@, 0, bytes)
            } else {
                r matches Err(e) && e@ == "Failed to serialize MQTT topics"@
            }
        }),
{
    match encode_topics(topics, out) {
        Ok(n) => Ok(n),
        Err(()) => Err("Failed to serialize MQTT topics"),
    }
}

/// Stored topics always fit the space for them.
pub proof fn law_topics_fit(topics: Seq<Seq<char>>)
    requires
        storable(topics),
    ensures
        topics_bytes(topics).len() <= MQTT_TOPICS_STORAGE_SIZE,
{
    lemma_row_size(topics);
}

/// The bytes that topics in a row take.
proof fn lemma_row_size(topics: Seq<Seq<char>>)
    requires
        forall|i: int|
            0 <= i < topics.len() ==> crate::short_text::fits(#[trigger] topics[i]),
    ensures
        topics_in_a_row(topics).len() <= 65 * topics.len(),
    decreases topics.len(),
{
    if topics.len() > 0 {
        let before = topics.drop_last();
        assert forall|i: int| 0 <= i < before.len() implies crate::short_text::fits(
            #[trigger] before[i],
        ) by {
            assert(before[i] == topics[i]);
        }
        lemma_row_size(before);
        assert(crate::short_text::fits(topics[topics.len() - 1]));
    }
}

// =============================================================================
// Numbers
// =============================================================================

/// The number that little-endian bytes stand for.
pub open spec fn le_value(bytes: Seq<u8>) -> int
    decreases bytes.len(),
{
    if bytes.len() == 0 {
        0
    } else {
        bytes[0] + 256 * le_value(bytes.skip(1))
    }
}

/// The `width` little-endian bytes of a number.
pub open spec fn le_bytes(n: int, width: nat) -> Seq<u8>
    decreases width,
{
    if width == 0 {
        Seq::empty()
    } else {
        seq![(n % 256) as u8] + le_bytes(n / 256, (width - 1) as nat)
    }
}

/// The first bytes are those of erased flash.
pub open spec fn looks_erased(bytes: Seq<u8>, count: int) -> bool {
    forall|i: int| 0 <= i < count ==> #[trigger] bytes[i] == 0xFFu8
}

/// Reads the first `count` bytes as a little-endian number.
fn read_le(bytes: &[u8], count: usize) -> (r: u64)
    requires
        count <= 8,
        count <= bytes@.len(),
    ensures
        r == le_value(bytes@.take(count as int)),
{
    let mut value: u64 = 0;
    let mut i: usize = count;
    proof {
        assert(bytes@.subrange(count as int, count as int) =~= Seq::<u8>::empty());
    }
    while i > 0
        invariant
            i <= count <= 8,
            count <= bytes@.len(),
            value == le_value(bytes@.subrange(i as int, count as int)),
            0 <= value < numbers_of((count - i) as nat),
        decreases i,
    {
        i -= 1;
        proof {
            let tail = bytes@.subrange(i as int, count as int);
            assert(tail.skip(1) =~= bytes@.subrange(i + 1, count as int));
            assert(tail[0] == bytes@[i as int]);
            lemma_numbers_of((count - i) as nat);
            lemma_numbers_of((count - i - 1) as nat);
        }
        value = value * 256 + bytes[i] as u64;
    }
    proof {
        assert(bytes@.subrange(0, count as int) =~= bytes@.take(count as int));
    }
    value
}

/// How many numbers `n` bytes can stand for.
spec fn numbers_of(n: nat) -> int
    decreases n,
{
    if n == 0 {
        1
    } else {
        256 * numbers_of((n - 1) as nat)
    }
}

/// Eight bytes stand for 64-bit numbers.
proof fn lemma_numbers_of(n: nat)
    requires
        n <= 8,
    ensures
        0 < numbers_of(n) <= 0x1_0000_0000_0000_0000,
{
    reveal_with_fuel(numbers_of, 9);
}

/// The number of a given width that is stored: none on erased flash.
pub open spec fn stored_number(data: Option<Seq<u8>>, count: int) -> Option<int> {
    match data {
        Some(bytes) => if looks_erased(bytes, count) {
            None
        } else {
            Some(le_value(bytes.take(count)))
        },
        None => None,
    }
}

/// Whether the first bytes are those of erased flash.
fn is_erased(bytes: &[u8], count: usize) -> (r: bool)
    requires
        count <= bytes@.len(),
    ensures
        r == looks_erased(bytes@, count as int),
{
    let mut i: usize = 0;
    while i < count
        invariant
            i <= count <= bytes@.len(),
            looks_erased(bytes@, i as int),
        decreases count - i,
    {
        if bytes[i] != 0xFF {
            return false;
        }
        i += 1;
    }
    true
}

/// The stored least number of seconds between two updates.
pub fn load_min_update_interval(data: Option<&[u8]>) -> (r: Option<u32>)
    requires
        data matches Some(bytes) ==> bytes@.len() >= 4,
    ensures
        match stored_number(bytes_of(data), 4) {
            Some(n) => r matches Some(interval) && interval == n,
            None => r is None,
        },
{
    match data {
        Some(bytes) => {
            if is_erased(bytes, 4) {
                return None;
            }
            let value: u64 = read_le(bytes, 4);
            proof {
                lemma_le_bound(bytes@.take(4));
                assert(numbers_of(4) == 0x1_0000_0000) by {
                    reveal_with_fuel(numbers_of, 5);
                }
            }
            Some(value as u32)
        },
        None => None,
    }
}

/// Little-endian bytes stand for a number of their width.
proof fn lemma_le_bound(bytes: Seq<u8>)
    ensures
        0 <= le_value(bytes) < numbers_of(bytes.len()),
    decreases bytes.len(),
{
    if bytes.len() > 0 {
        lemma_le_bound(bytes.skip(1));
    }
}

/// The bytes to store for the least number of seconds between two updates.
pub fn save_min_update_interval(interval: u32) -> (r: [u8; 4])
    ensures
        r@ == le_bytes(interval as int, 4),
{
    let r: [u8; 4] = [
        (interval % 256) as u8,
        (interval / 256 % 256) as u8,
        (interval / 256 / 256 % 256) as u8,
        (interval / 256 / 256 / 256 % 256) as u8,
    ];
    proof {
        reveal_with_fuel(le_bytes, 5);
        assert(r@ =~= le_bytes(interval as int, 4));
    }
    r
}

/// The stored number of updates between two full refreshes. A stored 0 counts
/// as none. Only the low byte of the stored number is kept.
pub fn load_max_cycles(data: Option<&[u8]>) -> (r: Option<u8>)
    requires
        data matches Some(bytes) ==> bytes@.len() >= 2,
    ensures
        match stored_number(bytes_of(data), 2) {
            Some(n) => if n == 0 {
                r is None
            } else {
                r matches Some(cycles) && cycles == n % 256
            },
            None => r is None,
        },
{
    match data {
        Some(bytes) => {
            if is_erased(bytes, 2) {
                return None;
            }
            let cycles: u64 = read_le(bytes, 2);
            if cycles == 0 {
                return None;
            }
            Some((cycles % 256) as u8)
        },
        None => None,
    }
}

/// The bytes to store for the number of updates between two full refreshes.
pub fn save_max_cycles(cycles: u8) -> (r: [u8; 2])
    ensures
        r@ == le_bytes(cycles as int, 2),
{
    let r: [u8; 2] = [cycles, 0];
    proof {
        reveal_with_fuel(le_bytes, 3);
        assert(r@ =~= le_bytes(cycles as int, 2));
    }
    r
}

/// The stored Unix time of the last update.
pub fn load_last_update_timestamp(data: Option<&[u8]>) -> (r: Option<u64>)
    requires
        data matches Some(bytes) ==> bytes@.len() >= 8,
    ensures
        match stored_number(bytes_of(data), 8) {
            Some(n) => r matches Some(timestamp) && timestamp == n,
            None => r is None,
        },
{
    match data {
        Some(bytes) => {
            if is_erased(bytes, 8) {
                return None;
            }
            Some(read_le(bytes, 8))
        },
        None => None,
    }
}

/// The bytes to store for the Unix time of the last update.
pub fn save_last_update_timestamp(timestamp_secs: u64) -> (r: [u8; 8])
    ensures
        r@ == le_bytes(timestamp_secs as int, 8),
{
    let mut r: [u8; 8] = [0u8; 8];
    let mut rest: u64 = timestamp_secs;
    let mut i: usize = 0;
    proof {
        assert(r@.take(0) + le_bytes(rest as int, 8) =~= le_bytes(timestamp_secs as int, 8));
    }
    while i < 8
        invariant
            i <= 8,
            r@.take(i as int) + le_bytes(rest as int, (8 - i) as nat) == le_bytes(
                timestamp_secs as int,
                8,
            ),
        decreases 8 - i,
    {
        let ghost before = r@.take(i as int);
        let ghost left = rest as int;
        r[i] = (rest % 256) as u8;
        rest = rest / 256;
        proof {
            let byte = r@[i as int];
            assert(r@.take(i + 1) =~= before.push(byte));
            assert(le_bytes(left, (8 - i) as nat) == seq![byte] + le_bytes(
                rest as int,
                (7 - i) as nat,
            ));
            assert(r@.take(i + 1) + le_bytes(rest as int, (7 - i) as nat) =~= before + le_bytes(
                left,
                (8 - i) as nat,
            ));
        }
        i += 1;
    }
    proof {
        assert(le_bytes(rest as int, 0) =~= Seq::<u8>::empty());
        assert(r@ =~= r@.take(8) + le_bytes(rest as int, 0));
    }
    r
}

/// The bytes of a number stand for it, if they are wide enough.
proof fn lemma_le_bytes_value(n: int, width: nat)
    requires
        0 <= n < numbers_of(width),
    ensures
        le_bytes(n, width).len() == width,
        le_value(le_bytes(n, width)) == n,
    decreases width,
{
    if width > 0 {
        let rest = le_bytes(n / 256, (width - 1) as nat);
        lemma_le_bytes_value(n / 256, (width - 1) as nat);
        assert(le_bytes(n, width).skip(1) =~= rest);
        assert(le_bytes(n, width)[0] == (n % 256) as u8);
    }
}

/// Bytes that stand for the largest number of their width are all ones.
proof fn lemma_le_max(bytes: Seq<u8>)
    requires
        looks_erased(bytes, bytes.len() as int),
    ensures
        le_value(bytes) == numbers_of(bytes.len()) - 1,
    decreases bytes.len(),
{
    if bytes.len() > 0 {
        assert forall|i: int| 0 <= i < bytes.len() - 1 implies #[trigger] bytes.skip(1)[i]
            == 0xFFu8 by {
            assert(bytes[i + 1] == 0xFFu8);
        }
        lemma_le_max(bytes.skip(1));
        assert(bytes[0] == 0xFFu8);
    }
}

/// How many numbers `width` bytes can stand for.
pub open spec fn range_of(width: nat) -> int {
    le_value(Seq::new(width, |i: int| 0xFFu8)) + 1
}

/// A stored number is read back, except the largest one of its width: its
/// bytes look like erased flash.
pub proof fn law_number_read_back(n: int, width: nat, rest: Seq<u8>)
    requires
        0 <= n < range_of(width) - 1,
    ensures
        stored_number(Some(le_bytes(n, width) + rest), width as int) == Some(n),
{
    let ones = Seq::new(width, |i: int| 0xFFu8);
    lemma_le_max(ones);
    lemma_le_bytes_value(n, width);
    let bytes = le_bytes(n, width);
    let all = bytes + rest;
    assert(all.take(width as int) =~= bytes);
    if looks_erased(all, width as int) {
        assert forall|i: int| 0 <= i < width implies #[trigger] bytes[i] == 0xFFu8 by {
            assert(all[i] == 0xFFu8);
        }
        assert(bytes =~= ones);
    }
}

/// Two bytes stand for 16-bit numbers, four for 32-bit and eight for 64-bit
/// ones.
pub proof fn law_ranges()
    ensures
        range_of(2) == 0x1_0000,
        range_of(4) == 0x1_0000_0000,
        range_of(8) == 0x1_0000_0000_0000_0000,
{
    lemma_le_max(Seq::new(2, |i: int| 0xFFu8));
    lemma_le_max(Seq::new(4, |i: int| 0xFFu8));
    lemma_le_max(Seq::new(8, |i: int| 0xFFu8));
    reveal_with_fuel(numbers_of, 9);
}

// =============================================================================
// Whether the last screen reports a lost connection
// =============================================================================

/// The stored flag: set exactly by the byte 1.
pub open spec fn stored_flag(data: Option<Seq<u8>>) -> bool {
    data matches Some(bytes) && bytes[0] == 1
}

/// The byte that is stored for the flag.
pub open spec fn flag_byte(set: bool) -> u8 {
    if set {
        1
    } else {
        0
    }
}

/// The stored flag; not set if there is none.
pub fn load_wifi_error_flag(data: Option<&[u8]>) -> (r: bool)
    requires
        data matches Some(bytes) ==> bytes@.len() >= 1,
    ensures
        r == stored_flag(bytes_of(data)),
{
    match data {
        Some(bytes) => bytes[0] == 1,
        None => false,
    }
}

/// The bytes to store for the flag.
pub fn save_wifi_error_flag(set: bool) -> (r: [u8; 1])
    ensures
        r@ == seq![flag_byte(set)],
{
    let r: [u8; 1] = [
        if set {
            1
        } else {
            0
        },
    ];
    assert(r@ =~= seq![flag_byte(set)]);
    r
}

/// What to store to clear the flag: nothing, unless it is set, to spare the
/// flash.
pub fn clear_wifi_error_flag_if_set(data: Option<&[u8]>) -> (r: Option<[u8; 1]>)
    requires
        data matches Some(bytes) ==> bytes@.len() >= 1,
    ensures
        if stored_flag(bytes_of(data)) {
            r matches Some(bytes) && bytes@ == seq![flag_byte(false)]
        } else {
            r is None
        },
{
    if load_wifi_error_flag(data) {
        Some(save_wifi_error_flag(false))
    } else {
        None
    }
}

/// A stored flag is read back.
pub proof fn law_flag_read_back(set: bool, rest: Seq<u8>)
    ensures
        stored_flag(Some(seq![flag_byte(set)] + rest)) == set,
{
}

// =============================================================================
// What is stored is what is loaded
// =============================================================================

/// Credentials come back as they were stored: a name of at most 32 bytes and a
/// password of at most 64 bytes are loaded, exactly these; nothing else that is
/// stored passes for credentials.
pub proof fn law_credentials_are_loaded(
    record: Result<NfcData, RecordFault>,
    r: Result<(heapless::String<32>, heapless::String<64>), &'static str>,
)
    requires
        call_ensures(load_wifi_credentials, (record,), r),
    ensures
        match record {
            Ok(NfcData::Wifi(name, password)) => {
                let short = vstd::utf8::encode_utf8(name@).len() <= 32 && vstd::utf8::encode_utf8(
                    password@,
                ).len() <= 64;
                &&& r is Ok <==> short
                &&& r matches Ok(c) ==> crate::short_text::ssid_of(c.0) == name@
                    && crate::short_text::text_of(c.1) == password@
                &&& r matches Err(e) ==> e@ == if vstd::utf8::encode_utf8(name@).len() > 32 {
                    "Failed to convert SSID to String"@
                } else {
                    "Failed to convert password to String"@
                }
            },
            Ok(_) => r matches Err(e) && e@ == "Storage contains non-WiFi credential data"@,
            Err(RecordFault::Malformed) => r matches Err(e) && e@
                == "Failed to parse WiFi credentials"@,
            Err(RecordFault::Unreadable) => r matches Err(e) && e@
                == "Failed to read WiFi credentials from storage"@,
        },
{
}

/// A text comes back as it was stored, unless it takes more bytes than there is
/// room for; no other record passes for a text.
pub proof fn law_text_is_loaded(
    record: Result<NfcData, RecordFault>,
    max: usize,
    r: Result<String, &'static str>,
)
    requires
        call_ensures(load_display_text, (record, max), r),
    ensures
        match record {
            Ok(NfcData::Text(text)) => {
                &&& r is Ok <==> vstd::utf8::encode_utf8(text@).len() <= max
                &&& r matches Ok(t) ==> t@ == text@
                &&& r matches Err(e) ==> e@ == "Failed to convert text to String or text too long"@
            },
            Ok(_) => r matches Err(e) && e@ == "Storage contains non-text data"@,
            Err(RecordFault::Malformed) => r matches Err(e) && e@
                == "Failed to parse display text"@,
            Err(RecordFault::Unreadable) => r matches Err(e) && e@
                == "Failed to read display text from storage"@,
        },
{
}

/// An address comes back as it was stored, unless it takes more bytes than
/// there is room for; no other record passes for an address.
pub proof fn law_url_is_loaded(
    record: Result<NfcData, RecordFault>,
    max: usize,
    r: Result<String, &'static str>,
)
    requires
        call_ensures(load_display_url, (record, max), r),
    ensures
        match record {
            Ok(NfcData::Uri(url)) => {
                &&& r is Ok <==> vstd::utf8::encode_utf8(url@).len() <= max
                &&& r matches Ok(u) ==> u@ == url@
                &&& r matches Err(e) ==> e@ == "Failed to convert URL to String or URL too long"@
            },
            Ok(_) => r matches Err(e) && e@ == "Storage contains non-URL data"@,
            Err(RecordFault::Malformed) => r matches Err(e) && e@
                == "Failed to parse display URL"@,
            Err(RecordFault::Unreadable) => r matches Err(e) && e@
                == "Failed to read display URL from storage"@,
        },
{
}

/// A record that is not there is told from one that is of another kind, and
/// both from one that is too long: no two of the errors are the same.
pub proof fn law_faults_are_told_apart(
    unreadable: Result<(heapless::String<32>, heapless::String<64>), &'static str>,
    malformed: Result<(heapless::String<32>, heapless::String<64>), &'static str>,
    unknown: Result<(heapless::String<32>, heapless::String<64>), &'static str>,
)
    requires
        call_ensures(load_wifi_credentials, (Err(RecordFault::Unreadable),), unreadable),
        call_ensures(load_wifi_credentials, (Err(RecordFault::Malformed),), malformed),
        call_ensures(load_wifi_credentials, (Ok(NfcData::Unknown),), unknown),
    ensures
        unreadable is Err && malformed is Err && unknown is Err,
        unreadable->Err_0@ != malformed->Err_0@,
        malformed->Err_0@ != unknown->Err_0@,
        unreadable->Err_0@ != unknown->Err_0@,
{
    reveal_strlit("Failed to read WiFi credentials from storage");
    reveal_strlit("Failed to parse WiFi credentials");
    reveal_strlit("Storage contains non-WiFi credential data");
    assert("Storage contains non-WiFi credential data"@[0] == 'S');
    assert("Failed to read WiFi credentials from storage"@.len()
        != "Failed to parse WiFi credentials"@.len());
}

/// The mode outlives a reboot: the bytes that are stored for a mode are read as
/// that mode, and what was never stored, or is none of these bytes, as live
/// updates.
pub proof fn law_mode_outlives_reboot(
    mode: DisplayMode,
    stored: [u8; 1],
    data: Option<&[u8]>,
    r: DisplayMode,
)
    requires
        call_ensures(set_display_mode, (mode,), stored),
        call_ensures(load_display_mode, (data,), r),
        data matches Some(bytes) ==> bytes@.len() >= 1,
    ensures
        data matches Some(bytes) && bytes@[0] == stored@[0] ==> r == mode,
        data is None ==> r == DisplayMode::LiveUpdates,
        data matches Some(bytes) && bytes@[0] > 2 ==> r == DisplayMode::LiveUpdates,
        stored@.len() == 1 && stored@[0] <= 2,
        stored@[0] == 0 <==> mode == DisplayMode::LiveUpdates,
        stored@[0] == 1 <==> mode == DisplayMode::CustomText,
{
}

/// A byte is read as the mode that it is written for.
pub proof fn law_mode_bytes(mode: DisplayMode, byte: u8, other: u8, r: Option<DisplayMode>)
    requires
        call_ensures(DisplayMode::as_byte, (mode,), byte),
        call_ensures(DisplayMode::from_byte, (other,), r),
    ensures
        other == byte <==> r == Some(mode),
        r is None <==> other > 2,
{
}

/// Topics outlive a reboot: what was saved is what is loaded.
pub proof fn law_topics_outlive_reboot(
    topics: &heapless::Vec<heapless::String<64>, 4>,
    out: &mut [u8],
    saved: Result<usize, &'static str>,
    data: &[u8],
    r: heapless::Vec<heapless::String<64>, 4>,
)
    requires
        call_ensures(save_mqtt_topics, (topics, out), saved),
        call_ensures(load_mqtt_topics, (Some(data),), r),
        crate::short_text::texts_of(*topics).len() <= 4,
        forall|i: int|
            0 <= i < crate::short_text::texts_of(*topics).len() ==> vstd::utf8::encode_utf8(
                #[trigger] crate::short_text::texts_of(*topics)[i],
            ).len() <= 64,
        data@.len() >= 1,
    ensures
        old(out)@.len() >= 512 ==> saved is Ok,
        saved is Err ==> (saved matches Err(e) && e@ == "Failed to serialize MQTT topics"@),
        saved matches Ok(n) ==> final(out)@[0] == crate::short_text::texts_of(*topics).len()
            && final(out)@.skip(n as int) == old(out)@.skip(n as int),
        saved is Ok && data@ == final(out)@ ==> crate::short_text::texts_of(r)
            == crate::short_text::texts_of(*topics),
{
    let held = crate::short_text::texts_of(*topics);
    let bytes = topics_bytes(held);
    assert(storable(held));
    law_topics_fit(held);
    if let Ok(n) = saved {
        assert(final(out)@.skip(n as int) =~= old(out)@.skip(n as int));
    }
    if saved is Ok && data@ == final(out)@ {
        assert(data@.subrange(0, bytes.len() as int) =~= bytes);
        assert(begins_with_topics(data@, held));
    }
}

/// Where no topics were stored, or flash is erased, there are none.
pub proof fn law_no_topics(data: Option<&[u8]>, r: heapless::Vec<heapless::String<64>, 4>)
    requires
        call_ensures(load_mqtt_topics, (data,), r),
        data matches Some(bytes) ==> bytes@.len() >= 1 && bytes@[0] == 255,
    ensures
        crate::short_text::texts_of(r).len() == 0,
{
}

/// The least number of seconds between two updates outlives a reboot. The
/// largest number looks like erased flash, which holds none.
pub proof fn law_interval_outlives_reboot(
    interval: u32,
    stored: [u8; 4],
    data: Option<&[u8]>,
    r: Option<u32>,
)
    requires
        call_ensures(save_min_update_interval, (interval,), stored),
        call_ensures(load_min_update_interval, (data,), r),
        data matches Some(bytes) ==> bytes@.len() >= 4,
    ensures
        stored@[0] + 0x100 * stored@[1] + 0x1_0000 * stored@[2] + 0x100_0000 * stored@[3]
            == interval,
        data is None ==> r is None,
        data matches Some(bytes) && bytes@.take(4) == stored@ && interval != u32::MAX ==> r == Some(
            interval,
        ),
        data matches Some(bytes) && bytes@.take(4) == seq![255u8, 255u8, 255u8, 255u8] ==> r is None,
{
    reveal_with_fuel(le_bytes, 5);
    if let Some(bytes) = data {
        law_ranges();
        assert(bytes@ =~= bytes@.take(4) + bytes@.skip(4));
        if bytes@.take(4) == stored@ && interval != u32::MAX {
            law_number_read_back(interval as int, 4, bytes@.skip(4));
        }
        if bytes@.take(4) == seq![255u8, 255u8, 255u8, 255u8] {
            assert forall|i: int| 0 <= i < 4 implies #[trigger] bytes@[i] == 255u8 by {
                assert(bytes@.take(4)[i] == 255u8);
            }
        }
    }
}

/// The number of updates between two full refreshes outlives a reboot, except
/// for 0, which counts as none.
pub proof fn law_cycles_outlive_reboot(
    cycles: u8,
    stored: [u8; 2],
    data: Option<&[u8]>,
    r: Option<u8>,
)
    requires
        call_ensures(save_max_cycles, (cycles,), stored),
        call_ensures(load_max_cycles, (data,), r),
        data matches Some(bytes) ==> bytes@.len() >= 2,
    ensures
        stored@[0] == cycles && stored@[1] == 0,
        data is None ==> r is None,
        data matches Some(bytes) ==> (r matches Some(n) ==> n == bytes@[0]),
        data matches Some(bytes) && bytes@.take(2) == stored@ ==> r == (if cycles == 0 {
            None
        } else {
            Some(cycles)
        }),
        data matches Some(bytes) && bytes@.take(2) == seq![255u8, 255u8] ==> r is None,
{
    reveal_with_fuel(le_bytes, 3);
    reveal_with_fuel(le_value, 3);
    if let Some(bytes) = data {
        law_ranges();
        assert(bytes@ =~= bytes@.take(2) + bytes@.skip(2));
        if bytes@.take(2) == stored@ {
            law_number_read_back(cycles as int, 2, bytes@.skip(2));
        }
        if bytes@.take(2) == seq![255u8, 255u8] {
            assert forall|i: int| 0 <= i < 2 implies #[trigger] bytes@[i] == 255u8 by {
                assert(bytes@.take(2)[i] == 255u8);
            }
        }
    }
}

/// The time of the last update outlives a reboot. The largest number looks like
/// erased flash, which holds none.
pub proof fn law_timestamp_outlives_reboot(
    timestamp: u64,
    stored: [u8; 8],
    data: Option<&[u8]>,
    r: Option<u64>,
)
    requires
        call_ensures(save_last_update_timestamp, (timestamp,), stored),
        call_ensures(load_last_update_timestamp, (data,), r),
        data matches Some(bytes) ==> bytes@.len() >= 8,
    ensures
        stored@[0] == timestamp % 0x100,
        stored@[1] == timestamp / 0x100 % 0x100,
        stored@[7] == timestamp / 0x100_0000_0000_0000,
        data is None ==> r is None,
        data matches Some(bytes) && bytes@.take(8) == stored@ && timestamp != u64::MAX ==> r
            == Some(timestamp),
        data matches Some(bytes) && (forall|i: int| 0 <= i < 8 ==> #[trigger] bytes@[i] == 255u8)
            ==> r is None,
{
    reveal_with_fuel(le_bytes, 9);
    if let Some(bytes) = data {
        law_ranges();
        assert(bytes@ =~= bytes@.take(8) + bytes@.skip(8));
        if bytes@.take(8) == stored@ && timestamp != u64::MAX {
            law_number_read_back(timestamp as int, 8, bytes@.skip(8));
        }
    }
}

/// The flag outlives a reboot, and is not set where it was never stored. To
/// clear it something is stored exactly when it is set, and it is not set
/// afterwards.
pub proof fn law_flag_outlives_reboot(
    set: bool,
    stored: [u8; 1],
    data: Option<&[u8]>,
    r: bool,
    clearing: Option<[u8; 1]>,
    later: &[u8],
    after: bool,
)
    requires
        call_ensures(save_wifi_error_flag, (set,), stored),
        call_ensures(load_wifi_error_flag, (data,), r),
        call_ensures(clear_wifi_error_flag_if_set, (data,), clearing),
        call_ensures(load_wifi_error_flag, (Some(later),), after),
        data matches Some(bytes) ==> bytes@.len() >= 1,
        later@.len() >= 1,
    ensures
        data is None ==> !r,
        data matches Some(bytes) && bytes@[0] == stored@[0] ==> r == set,
        data matches Some(bytes) && bytes@[0] == 255 ==> !r,
        stored@[0] == 1 <==> set,
        stored@[0] == 0 <==> !set,
        clearing is Some <==> r,
        clearing matches Some(bytes) && later@[0] == bytes@[0] ==> !after,
{
}

} // verus!
