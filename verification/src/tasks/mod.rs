//! What the concurrent tasks of the firmware decide, and what they share.

use crate::short_text::{append, empty_text};
use crate::text::{ends_with, starts_with};
use vstd::prelude::*;

pub mod chunks;
pub mod subscriptions;
pub mod task_display_handler;
pub mod task_nfc;
pub mod task_run;
pub mod task_wifi_runner;

verus! {

/// `bytes` cut to `len` bytes, or filled up with `padding`.
pub open spec fn matched(bytes: Seq<u8>, len: nat, padding: u8) -> Seq<u8> {
    Seq::new(
        len,
        |i: int|
            if i < bytes.len() {
                bytes[i]
            } else {
                padding
            },
    )
}

/// Something that can be cut or filled up to a fixed number of bytes.
pub trait MatchSliceLengths<const N: usize>: Sized {
    /// Its bytes.
    spec fn source(self) -> Seq<u8>;

    /// Its bytes, cut or filled up with `padding`.
    fn match_size(self, padding: u8) -> (r: [u8; N])
        ensures
            r@ == matched(self.source(), N as nat, padding),
    ;
}

impl<'a, const N: usize> MatchSliceLengths<N> for &'a [u8] {
    open spec fn source(self) -> Seq<u8> {
        self@
    }

    fn match_size(self, padding: u8) -> [u8; N] {
        let mut buffer: [u8; N] = [padding; N];
        let mut i: usize = 0;
        while i < N && i < self.len()
            invariant
                i <= N,
                i <= self@.len(),
                forall|k: int|
                    0 <= k < N ==> #[trigger] buffer@[k] == (if k < i {
                        self@[k]
                    } else {
                        padding
                    }),
            decreases N - i,
        {
            buffer[i] = self[i];
            i += 1;
        }
        assert(buffer@ =~= matched(self@, N as nat, padding));
        buffer
    }
}

/// What a registration response begins with.
pub const REGISTRATION_PREFIX: &'static str = "REG:C:";

/// What a registration response ends with.
pub const REGISTRATION_SUFFIX: &'static str = ";;";

/// `text` followed by `pieces` up to the first one that does not fit.
pub open spec fn append_pieces(text: Seq<char>, pieces: Seq<Seq<char>>) -> Seq<char>
    decreases pieces.len(),
{
    if pieces.len() == 0 || !crate::short_text::fits(text + pieces[0]) {
        text
    } else {
        append_pieces(text + pieces[0], pieces.skip(1))
    }
}

/// The registration response for a code, `REG:C:<code>;;`. Where that is too
/// long, it ends before the piece that does not fit.
pub fn format_registration_response(code: &str) -> (r: heapless::String<64>)
    ensures
        crate::short_text::text_of(r) == append_pieces(
            Seq::empty(),
            seq![REGISTRATION_PREFIX@, code@, REGISTRATION_SUFFIX@],
        ),
{
    let ghost pieces = seq![REGISTRATION_PREFIX@, code@, REGISTRATION_SUFFIX@];
    proof {
        reveal_with_fuel(append_pieces, 4);
        assert(pieces.skip(1) =~= seq![code@, REGISTRATION_SUFFIX@]);
        assert(pieces.skip(1).skip(1) =~= seq![REGISTRATION_SUFFIX@]);
        assert(pieces.skip(1).skip(1).skip(1) =~= Seq::<Seq<char>>::empty());
    }
    let mut response: heapless::String<64> = empty_text();
    if append(&mut response, REGISTRATION_PREFIX) && append(&mut response, code) {
        append(&mut response, REGISTRATION_SUFFIX);
    }
    response
}

/// A text is a registration response: it begins and ends like one.
pub open spec fn is_response(text: Seq<char>) -> bool {
    REGISTRATION_PREFIX@.is_prefix_of(text) && REGISTRATION_SUFFIX@.is_suffix_of(text)
}

/// Whether a text is a registration response, which is not meant for the
/// display.
pub fn is_registration_response(text: &str) -> (r: bool)
    ensures
        r == is_response(text@),
{
    starts_with(text, REGISTRATION_PREFIX) && ends_with(text, REGISTRATION_SUFFIX)
}

/// The response for a code that fits is `REG:C:<code>;;`, and it is recognised
/// as a response.
pub proof fn law_response_is_recognised(code: Seq<char>)
    requires
        crate::short_text::fits(REGISTRATION_PREFIX@ + code + REGISTRATION_SUFFIX@),
    ensures
        append_pieces(Seq::empty(), seq![REGISTRATION_PREFIX@, code, REGISTRATION_SUFFIX@])
            == REGISTRATION_PREFIX@ + code + REGISTRATION_SUFFIX@,
        is_response(REGISTRATION_PREFIX@ + code + REGISTRATION_SUFFIX@),
{
    let prefix = REGISTRATION_PREFIX@;
    let suffix = REGISTRATION_SUFFIX@;
    let text = prefix + code + suffix;
    let pieces = seq![prefix, code, suffix];
    crate::text::lemma_encode_concat(prefix, code);
    crate::text::lemma_encode_concat(prefix + code, suffix);
    assert(Seq::<char>::empty() + prefix =~= prefix);
    reveal_with_fuel(append_pieces, 4);
    assert(pieces.skip(1) =~= seq![code, suffix]);
    assert(pieces.skip(1).skip(1) =~= seq![suffix]);
    assert(pieces.skip(1).skip(1).skip(1) =~= Seq::<Seq<char>>::empty());
    assert(text.subrange(0, prefix.len() as int) =~= prefix);
    assert(text.subrange((text.len() - suffix.len()) as int, text.len() as int) =~= suffix);
}

/// The response for the name of a device, whatever its MAC address, is complete
/// and is recognised.
pub proof fn law_devices_have_responses(mac: [u8; 6])
    ensures
        append_pieces(
            Seq::empty(),
            seq![REGISTRATION_PREFIX@, crate::text::upper_hex(mac@), REGISTRATION_SUFFIX@],
        ) == REGISTRATION_PREFIX@ + crate::text::upper_hex(mac@) + REGISTRATION_SUFFIX@,
        is_response(REGISTRATION_PREFIX@ + crate::text::upper_hex(mac@) + REGISTRATION_SUFFIX@),
{
    let text = REGISTRATION_PREFIX@ + crate::text::upper_hex(mac@) + REGISTRATION_SUFFIX@;
    reveal_strlit("REG:C:");
    reveal_strlit(";;");
    crate::text::lemma_hex_is_ascii(mac@);
    assert(vstd::utf8::is_ascii_chars(text));
    vstd::utf8::is_ascii_chars_encode_utf8(text);
    law_response_is_recognised(crate::text::upper_hex(mac@));
}

/// The response for a code is `REG:C:`, the code and `;;`, whenever that takes at
/// most 64 bytes, and it is recognised as a response. Only a text that begins
/// and ends so is.
pub proof fn law_registration(
    code: &str,
    response: heapless::String<64>,
    text: &str,
    recognised: bool,
)
    requires
        call_ensures(format_registration_response, (code,), response),
        call_ensures(is_registration_response, (text,), recognised),
    ensures
        vstd::utf8::encode_utf8(code@).len() <= 56 ==> crate::short_text::text_of(response)
            == "REG:C:"@ + code@ + ";;"@,
        vstd::utf8::encode_utf8(code@).len() <= 56 && text@ == crate::short_text::text_of(response)
            ==> recognised,
        recognised <==> "REG:C:"@.is_prefix_of(text@) && ";;"@.is_suffix_of(text@),
{
    reveal_strlit("REG:C:");
    reveal_strlit(";;");
    crate::text::lemma_encode_concat("REG:C:"@, code@);
    crate::text::lemma_encode_concat("REG:C:"@ + code@, ";;"@);
    vstd::utf8::is_ascii_chars_encode_utf8("REG:C:"@);
    vstd::utf8::is_ascii_chars_encode_utf8(";;"@);
    if vstd::utf8::encode_utf8(code@).len() <= 56 {
        law_response_is_recognised(code@);
    }
}

/// Bytes that are cut or filled up begin with the bytes, as far as they go, and
/// go on with the padding.
pub proof fn law_matched(bytes: Seq<u8>, len: nat, padding: u8)
    ensures
        matched(bytes, len, padding).len() == len,
        forall|i: int|
            0 <= i < len && i < bytes.len() ==> #[trigger] matched(bytes, len, padding)[i]
                == bytes[i],
        forall|i: int|
            bytes.len() <= i < len ==> #[trigger] matched(bytes, len, padding)[i] == padding,
        bytes.len() == len ==> matched(bytes, len, padding) == bytes,
{
    if bytes.len() == len {
        assert(matched(bytes, len, padding) =~= bytes);
    }
}

/// Bytes that are cut or filled up to a fixed size begin with the bytes, as far
/// as they go, and go on with the padding.
pub proof fn law_match_size<const N: usize>(bytes: &[u8], padding: u8, r: [u8; N])
    requires
        call_ensures(<&[u8] as MatchSliceLengths<N>>::match_size, (bytes, padding), r),
    ensures
        forall|i: int| 0 <= i < N && i < bytes@.len() ==> #[trigger] r@[i] == bytes@[i],
        forall|i: int| bytes@.len() <= i < N ==> #[trigger] r@[i] == padding,
{
}

} // verus!
