//! Messages about updates: the trigger that asks for one, and the
//! acknowledgement that answers it.

use crate::text::cut_at_zero;
use vstd::prelude::*;
use vstd::string::*;

verus! {

/// A message that asks for an update, such as
/// `{"url": "https://fw.example.com/v1.2.0/firmware.bin", "version": "1.2.0", "size": 1258000}`.
#[derive(Debug, Clone, Copy)]
pub struct OtaTrigger<'a> {
    /// Address of the signed image.
    pub url: &'a str,
    /// Version, for people to read.
    pub version: &'a str,
    /// Size of the image in bytes.
    pub size: u32,
    /// CRC-32 of the image; 0 in a message that does not give one.
    pub crc32: u32,
}

/// How an update ended.
#[derive(Debug, Clone, Copy, PartialEq, Eq, Structural)]
pub enum OtaStatus {
    /// The image is written and boots next.
    Success,
    /// The update failed.
    Error,
}

/// The answer to a trigger.
#[derive(Debug)]
pub struct OtaAck<'a> {
    /// How the update ended.
    pub status: OtaStatus,
    /// Version that the trigger named.
    pub version: &'a str,
}

/// The word for a status.
pub open spec fn status_word(status: OtaStatus) -> Seq<char> {
    match status {
        OtaStatus::Success => "success"@,
        OtaStatus::Error => "error"@,
    }
}

/// The pieces of an acknowledgement.
pub open spec fn ack_pieces(status: OtaStatus, version: Seq<char>) -> Seq<Seq<char>> {
    seq![
        "{\"ota_status\":\""@,
        status_word(status),
        "\",\"version\":\""@,
        version,
        "\"}"@,
    ]
}

/// The text of an acknowledgement.
pub open spec fn ack_text(status: OtaStatus, version: Seq<char>) -> Seq<char> {
    "{\"ota_status\":\""@ + status_word(status) + "\",\"version\":\""@ + version + "\"}"@
}

/// What is in a buffer after pieces were put into it one after the other,
/// from `pos` on, until one did not fit; and where the last one ended, if all
/// did.
pub open spec fn put_pieces(buf: Seq<u8>, pos: int, pieces: Seq<Seq<char>>) -> (
    Seq<u8>,
    Option<int>,
)
    decreases pieces.len(),
{
    if pieces.len() == 0 {
        (buf, Some(pos))
    } else {
        let bytes = vstd::utf8::encode_utf8(pieces[0]);
        if pos + bytes.len() > buf.len() {
            (buf, None)
        } else {
            put_pieces(
                crate::secure_flash::splice(buf, pos, bytes),
                pos + bytes.len(),
                pieces.skip(1),
            )
        }
    }
}

impl<'a> OtaAck<'a> {
    /// Writes the acknowledgement as JSON into a buffer and returns how many
    /// bytes it took, if they fit.
    ///
    /// Where the buffer is too small, it holds the first pieces, as far as
    /// they fit.
    pub fn write_json(&self, buf: &mut [u8]) -> (r: Option<usize>)
        ensures
            final(buf)@ == put_pieces(old(buf)@, 0, ack_pieces(self.status, self.version@)).0,
            ({
                let json = vstd::utf8::encode_utf8(ack_text(self.status, self.version@));
                &&& r is Some <==> json.len() <= old(buf)@.len()
                &&& r matches Some(n) ==> n == json.len() && final(buf)@
                    == crate::secure_flash::splice(old(buf)@, 0, json)
            }),
    {
        let status_str: &str = match self.status {
            OtaStatus::Success => "success",
            OtaStatus::Error => "error",
        };
        let parts: [&str; 5] = [
            "{\"ota_status\":\"",
            status_str,
            "\",\"version\":\"",
            self.version,
            "\"}",
        ];
        let ghost pieces = ack_pieces(self.status, self.version@);
        let ghost start = buf@;
        proof {
            lemma_pieces_in_a_row(start, self.status, self.version@);
            assert(pieces.skip(0) =~= pieces);
        }
        let mut pos: usize = 0;
        let mut i: usize = 0;
        while i < 5
            invariant
                i <= 5,
                pieces.len() == 5,
                forall|j: int| 0 <= j < 5 ==> (#[trigger] parts@[j])@ == pieces[j],
                buf@.len() == start.len(),
                pos <= buf@.len(),
                put_pieces(start, 0, pieces) == put_pieces(buf@, pos as int, pieces.skip(i as int)),
                start == old(buf)@,
                pieces == ack_pieces(self.status, self.version@),
                ({
                    let json = vstd::utf8::encode_utf8(ack_text(self.status, self.version@));
                    let placed = put_pieces(start, 0, pieces);
                    &&& placed.1 is Some <==> json.len() <= start.len()
                    &&& placed.1 matches Some(n) ==> n == json.len() && placed.0
                        == crate::secure_flash::splice(start, 0, json)
                }),
            decreases 5 - i,
        {
            let part: &[u8] = parts[i].as_bytes();
            proof {
                assert(parts@[i as int]@ == pieces[i as int]);
                assert(pieces.skip(i as int)[0] == pieces[i as int]);
                assert(pieces.skip(i as int).skip(1) =~= pieces.skip(i + 1));
            }
            let cap: usize = buf.len();
            if part.len() > cap - pos {
                return None;
            }
            let ghost before = buf@;
            let mut j: usize = 0;
            while j < part.len()
                invariant
                    j <= part@.len(),
                    buf@.len() == before.len(),
                    pos + part@.len() <= cap,
                    buf@.len() == cap,
                    start == old(buf)@,
                    forall|k: int|
                        0 <= k < buf@.len() ==> #[trigger] buf@[k] == (if pos <= k < pos + j {
                            part@[k - pos]
                        } else {
                            before[k]
                        }),
                decreases part@.len() - j,
            {
                buf[pos + j] = part[j];
                j += 1;
            }
            proof {
                assert(buf@ =~= crate::secure_flash::splice(before, pos as int, part@));
            }
            pos += part.len();
            i += 1;
        }
        Some(pos)
    }
}

/// The pieces of an acknowledgement, if they fit, are its text.
proof fn lemma_pieces_in_a_row(buf: Seq<u8>, status: OtaStatus, version: Seq<char>)
    ensures
        ({
            let json = vstd::utf8::encode_utf8(ack_text(status, version));
            let placed = put_pieces(buf, 0, ack_pieces(status, version));
            &&& placed.1 is Some <==> json.len() <= buf.len()
            &&& placed.1 matches Some(n) ==> n == json.len() && placed.0
                == crate::secure_flash::splice(buf, 0, json)
        }),
{
    let p = ack_pieces(status, version);
    let s1 = p[0];
    let s2 = s1 + p[1];
    let s3 = s2 + p[2];
    let s4 = s3 + p[3];
    let s5 = s4 + p[4];
    crate::text::lemma_encode_concat(s1, p[1]);
    crate::text::lemma_encode_concat(s2, p[2]);
    crate::text::lemma_encode_concat(s3, p[3]);
    crate::text::lemma_encode_concat(s4, p[4]);
    assert(p.skip(1) =~= seq![p[1], p[2], p[3], p[4]]);
    assert(p.skip(1).skip(1) =~= seq![p[2], p[3], p[4]]);
    assert(p.skip(1).skip(1).skip(1) =~= seq![p[3], p[4]]);
    assert(p.skip(1).skip(1).skip(1).skip(1) =~= seq![p[4]]);
    assert(p.skip(1).skip(1).skip(1).skip(1).skip(1) =~= Seq::<Seq<char>>::empty());
    let e1 = vstd::utf8::encode_utf8(s1);
    let e2 = vstd::utf8::encode_utf8(s2);
    let e3 = vstd::utf8::encode_utf8(s3);
    let e4 = vstd::utf8::encode_utf8(s4);
    let e5 = vstd::utf8::encode_utf8(s5);
    let b1 = crate::secure_flash::splice(buf, 0, e1);
    let b2 = crate::secure_flash::splice(b1, e1.len() as int, vstd::utf8::encode_utf8(p[1]));
    let b3 = crate::secure_flash::splice(b2, e2.len() as int, vstd::utf8::encode_utf8(p[2]));
    let b4 = crate::secure_flash::splice(b3, e3.len() as int, vstd::utf8::encode_utf8(p[3]));
    let b5 = crate::secure_flash::splice(b4, e4.len() as int, vstd::utf8::encode_utf8(p[4]));
    assert(b2 =~= crate::secure_flash::splice(buf, 0, e2));
    assert(b3 =~= crate::secure_flash::splice(buf, 0, e3));
    assert(b4 =~= crate::secure_flash::splice(buf, 0, e4));
    assert(b5 =~= crate::secure_flash::splice(buf, 0, e5));
    reveal_with_fuel(put_pieces, 7);
}

/// What is left of a decoded trigger after its fields are checked, or what is
/// wrong with it.
pub open spec fn checked_trigger<'a>(decoded: Option<OtaTrigger<'a>>) -> Result<
    OtaTrigger<'a>,
    Seq<char>,
> {
    match decoded {
        None => Err("Failed to parse OTA trigger JSON"@),
        Some(trigger) => if trigger.url@.len() == 0 {
            Err("OTA trigger URL is empty"@)
        } else if trigger.size == 0 {
            Err("OTA trigger size is zero"@)
        } else {
            Ok(trigger)
        },
    }
}

/// A result is the one that a specification gives, errors compared as text.
pub open spec fn agrees<T>(r: Result<T, &'static str>, wanted: Result<T, Seq<char>>) -> bool {
    match (r, wanted) {
        (Ok(a), Ok(b)) => a == b,
        (Err(e), Err(text)) => e@ == text,
        _ => false,
    }
}

/// Checks the fields of a trigger; `None` stands for a message that could not
/// be decoded.
pub fn check_trigger<'a>(decoded: Option<OtaTrigger<'a>>) -> (r: Result<
    OtaTrigger<'a>,
    &'static str,
>)
    ensures
        agrees(r, checked_trigger(decoded)),
{
    match decoded {
        None => Err("Failed to parse OTA trigger JSON"),
        Some(trigger) => {
            if trigger.url.is_empty() {
                return Err("OTA trigger URL is empty");
            }
            if trigger.size == 0 {
                return Err("OTA trigger size is zero");
            }
            Ok(trigger)
        },
    }
}

/// `r` is what parsing a message gives, with `decode` as the decoder of its
/// JSON: the bytes before the first zero byte are decoded, and the fields are
/// checked.
pub open spec fn parses_to<'a, D: FnOnce(&'a [u8]) -> Option<OtaTrigger<'a>>>(
    json_data: &'a [u8],
    decode: D,
    r: Result<OtaTrigger<'a>, &'static str>,
) -> bool {
    exists|json: &'a [u8], decoded: Option<OtaTrigger<'a>>|
        json@ == crate::text::until_zero(json_data@) && #[trigger] call_ensures(
            decode,
            (json,),
            decoded,
        ) && agrees(r, checked_trigger(decoded))
}

/// Parses a trigger from raw JSON bytes, which may be followed by a zero byte.
/// `decode` decodes the JSON, and returns `None` where it cannot.
pub fn parse_trigger<'a, D: FnOnce(&'a [u8]) -> Option<OtaTrigger<'a>>>(
    json_data: &'a [u8],
    decode: D,
) -> (r: Result<OtaTrigger<'a>, &'static str>)
    requires
        forall|json: &'a [u8]|
            json@ == crate::text::until_zero(json_data@) ==> #[trigger] call_requires(
                decode,
                (json,),
            ),
    ensures
        parses_to(json_data, decode, r),
{
    let json: &'a [u8] = cut_at_zero(json_data);
    let decoded: Option<OtaTrigger<'a>> = decode(json);
    assert(call_ensures(decode, (json,), decoded));
    check_trigger(decoded)
}

/// The first `k` pieces stand at the beginning of the buffer, and the next one
/// has no room.
pub open spec fn filled_up(
    before: Seq<u8>,
    after: Seq<u8>,
    pieces: Seq<Seq<char>>,
    k: int,
) -> bool {
    let text = pieces.take(k).flatten();
    let bytes = vstd::utf8::encode_utf8(text);
    &&& bytes.len() <= before.len() < vstd::utf8::encode_utf8(text + pieces[k]).len()
    &&& after.len() == before.len()
    &&& after.take(bytes.len() as int) == bytes
    &&& after.skip(bytes.len() as int) == before.skip(bytes.len() as int)
}

/// The same, where a text stands in the buffer already.
spec fn filled_from(
    before: Seq<u8>,
    done: Seq<char>,
    after: Seq<u8>,
    pieces: Seq<Seq<char>>,
    k: int,
) -> bool {
    let text = done + pieces.take(k).flatten();
    let bytes = vstd::utf8::encode_utf8(text);
    &&& bytes.len() <= before.len() < vstd::utf8::encode_utf8(text + pieces[k]).len()
    &&& after.len() == before.len()
    &&& after.take(bytes.len() as int) == bytes
    &&& after.skip(bytes.len() as int) == before.skip(bytes.len() as int)
}

/// Pieces that do not all fit fill the buffer as far as they do.
proof fn lemma_filled_up(buf: Seq<u8>, done: Seq<char>, pieces: Seq<Seq<char>>)
    requires
        vstd::utf8::encode_utf8(done).len() <= buf.len(),
    ensures
        ({
            let bytes = vstd::utf8::encode_utf8(done);
            let start = crate::secure_flash::splice(buf, 0, bytes);
            let placed = put_pieces(start, bytes.len() as int, pieces);
            placed.1 is None ==> exists|k: int|
                0 <= k < pieces.len() && #[trigger] filled_from(buf, done, placed.0, pieces, k)
        }),
    decreases pieces.len(),
{
    let bytes = vstd::utf8::encode_utf8(done);
    let start = crate::secure_flash::splice(buf, 0, bytes);
    let placed = put_pieces(start, bytes.len() as int, pieces);
    if pieces.len() > 0 {
        let next = vstd::utf8::encode_utf8(pieces[0]);
        crate::text::lemma_encode_concat(done, pieces[0]);
        if bytes.len() + next.len() > buf.len() {
            assert(pieces.take(0) =~= Seq::<Seq<char>>::empty());
            assert(done + pieces.take(0).flatten() =~= done);
            assert(start.take(bytes.len() as int) =~= bytes);
            assert(start.skip(bytes.len() as int) =~= buf.skip(bytes.len() as int));
            assert(filled_from(buf, done, placed.0, pieces, 0));
        } else {
            let more = done + pieces[0];
            let rest = pieces.skip(1);
            assert(crate::secure_flash::splice(start, bytes.len() as int, next)
                =~= crate::secure_flash::splice(buf, 0, bytes + next));
            lemma_filled_up(buf, more, rest);
            if placed.1 is None {
                let k = choose|k: int|
                    0 <= k < rest.len() && #[trigger] filled_from(buf, more, placed.0, rest, k);
                let all = pieces.take(k + 1);
                assert(all.drop_first() =~= rest.take(k));
                assert(all.flatten() == pieces[0] + rest.take(k).flatten());
                assert(done + all.flatten() =~= more + rest.take(k).flatten());
                assert(filled_from(buf, done, placed.0, pieces, k + 1));
            }
        }
    }
}

/// The acknowledgement is a JSON object with the word for how the update ended
/// and the version that the trigger named. It is written whole where it fits, and
/// what follows it in the buffer stays. Where it does not fit, the buffer begins
/// with as many of its five pieces as it has room for.
pub proof fn law_acknowledgement(
    ack: &OtaAck<'_>,
    buf: &mut [u8],
    r: Option<usize>,
    pieces: Seq<Seq<char>>,
)
    requires
        call_ensures(OtaAck::write_json, (ack, buf), r),
        pieces == seq![
            "{\"ota_status\":\""@,
            if ack.status == OtaStatus::Success {
                "success"@
            } else {
                "error"@
            },
            "\",\"version\":\""@,
            ack.version@,
            "\"}"@,
        ],
    ensures
        ({
            let word = if ack.status == OtaStatus::Success {
                "success"@
            } else {
                "error"@
            };
            let json = vstd::utf8::encode_utf8(
                "{\"ota_status\":\""@ + word + "\",\"version\":\""@ + ack.version@ + "\"}"@,
            );
            &&& r is Some <==> json.len() <= old(buf)@.len()
            &&& r matches Some(n) ==> {
                &&& n == json.len()
                &&& final(buf)@.len() == old(buf)@.len()
                &&& final(buf)@.take(n as int) == json
                &&& final(buf)@.skip(n as int) == old(buf)@.skip(n as int)
            }
            &&& r is None ==> exists|k: int|
                0 <= k < 5 && #[trigger] filled_up(
                    old(buf)@,
                    final(buf)@,
                    pieces,
                    k,
                )
        }),
{
    assert(pieces =~= ack_pieces(ack.status, ack.version@));
    let none = Seq::<char>::empty();
    assert(vstd::utf8::encode_utf8(none) =~= Seq::<u8>::empty());
    assert(crate::secure_flash::splice(old(buf)@, 0, Seq::empty()) =~= old(buf)@);
    lemma_filled_up(old(buf)@, none, pieces);
    if r is None {
        lemma_pieces_in_a_row(old(buf)@, ack.status, ack.version@);
        let k = choose|k: int|
            0 <= k < pieces.len() && #[trigger] filled_from(
                old(buf)@,
                none,
                put_pieces(old(buf)@, 0, pieces).0,
                pieces,
                k,
            );
        assert(none + pieces.take(k).flatten() =~= pieces.take(k).flatten());
        assert(filled_up(old(buf)@, final(buf)@, pieces, k));
    }
    if let Some(n) = r {
        let json = vstd::utf8::encode_utf8(ack_text(ack.status, ack.version@));
        assert(final(buf)@.take(n as int) =~= json);
        assert(final(buf)@.skip(n as int) =~= old(buf)@.skip(n as int));
    }
}

/// A trigger is taken as it is if it has an address and a size; anything else is
/// refused, with a word about what is missing.
pub proof fn law_trigger_is_checked<'a>(
    decoded: Option<OtaTrigger<'a>>,
    r: Result<OtaTrigger<'a>, &'static str>,
)
    requires
        call_ensures(check_trigger, (decoded,), r),
    ensures
        r is Ok <==> (decoded matches Some(t) && t.url@.len() > 0 && t.size > 0),
        r matches Ok(t) ==> decoded == Some(t),
        r matches Err(e) ==> match decoded {
            None => e@ == "Failed to parse OTA trigger JSON"@,
            Some(t) => if t.url@.len() == 0 {
                e@ == "OTA trigger URL is empty"@
            } else {
                e@ == "OTA trigger size is zero"@
            },
        },
{
}

/// A trigger is parsed from what the decoder makes of the bytes before the first
/// zero byte, and only from that.
pub proof fn law_trigger_is_parsed<'a, D: FnOnce(&'a [u8]) -> Option<OtaTrigger<'a>>>(
    json_data: &'a [u8],
    decode: D,
    r: Result<OtaTrigger<'a>, &'static str>,
)
    requires
        call_ensures(parse_trigger::<D>, (json_data, decode), r),
    ensures
        r matches Ok(t) ==> t.url@.len() > 0 && t.size > 0 && exists|json: &'a [u8]|
            json@.is_prefix_of(json_data@) && !json@.contains(0u8) && #[trigger] call_ensures(
                decode,
                (json,),
                Some(t),
            ),
        (forall|json: &'a [u8], d: Option<OtaTrigger<'a>>| #[trigger]
            call_ensures(decode, (json,), d) ==> d is None) ==> r is Err,
{
    json_data@.index_of_first_ensures(0u8);
    let cut = crate::text::until_zero(json_data@);
    assert(cut =~= json_data@.subrange(0, cut.len() as int));
    assert(!cut.contains(0u8)) by {
        if cut.contains(0u8) {
            let i = choose|i: int| 0 <= i < cut.len() && cut[i] == 0u8;
            assert(json_data@[i] == 0u8);
        }
    }
}

} // verus!
