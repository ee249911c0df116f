//! Chunks of a frame as they arrive: JSON objects with a Base64 text.

use crate::text::cut_at_zero;
use base64ct::Encoding;
use vstd::prelude::*;

verus! {

/// A chunk as it arrives, such as
/// `{"frame": "base64_encoded_string", "requires_response": true, "chunk_index": 0, "total_chunks": 1}`.
#[derive(Debug, Clone, Copy)]
pub struct BinaryPayload<'a> {
    /// The bytes of the chunk in Base64.
    pub frame: &'a str,
    /// Whether the sender wants a response.
    pub requires_response: bool,
    /// Number of the chunk, from 0 on.
    pub chunk_index: usize,
    /// Number of chunks that the frame consists of.
    pub total_chunks: usize,
}

/// A chunk without its bytes.
#[derive(Debug, Clone, Copy)]
pub struct ChunkMetadata {
    /// Whether the sender wants a response.
    pub requires_response: bool,
    /// Number of the chunk, from 0 on.
    pub chunk_index: usize,
    /// Number of chunks that the frame consists of.
    pub total_chunks: usize,
}

/// The Base64 symbol for six bits.
#[verifier::opaque]
pub open spec fn base64_symbol(bits: int) -> char {
    if bits < 26 {
        (bits + 'A' as int) as char
    } else if bits < 52 {
        (bits - 26 + 'a' as int) as char
    } else if bits < 62 {
        (bits - 52 + '0' as int) as char
    } else if bits == 62 {
        '+'
    } else {
        '/'
    }
}

/// The four symbols for three bytes.
pub open spec fn base64_group(a: u8, b: u8, c: u8) -> Seq<char> {
    let bits = a * 65536 + b * 256 + c;
    seq![
        base64_symbol(bits / 262144),
        base64_symbol(bits / 4096 % 64),
        base64_symbol(bits / 64 % 64),
        base64_symbol(bits % 64),
    ]
}

/// The Base64 text of bytes, padded with `=` to whole groups of four.
pub open spec fn base64_text(data: Seq<u8>) -> Seq<char>
    decreases data.len(),
{
    if data.len() == 0 {
        Seq::empty()
    } else if data.len() == 1 {
        base64_group(data[0], 0, 0).take(2) + seq!['=', '=']
    } else if data.len() == 2 {
        base64_group(data[0], data[1], 0).take(3) + seq!['=']
    } else {
        base64_group(data[0], data[1], data[2]) + base64_text(data.skip(3))
    }
}

/// The number of symbols, and where padding stands.
proof fn lemma_base64_shape(data: Seq<u8>)
    ensures
        base64_text(data).len() == (data.len() + 2) / 3 * 4,
    decreases data.len(),
{
    if data.len() >= 3 {
        lemma_base64_shape(data.skip(3));
    }
}

/// The six bits that a symbol stands for are the only ones.
proof fn lemma_symbol_injective(x: int, y: int)
    requires
        0 <= x < 64,
        0 <= y < 64,
        base64_symbol(x) == base64_symbol(y),
    ensures
        x == y,
        base64_symbol(x) != '=',
{
    reveal(base64_symbol);
}

/// Twenty-four bits are made up of their four groups of six.
proof fn lemma_four_groups(x: int)
    requires
        0 <= x < 0x100_0000,
    ensures
        x == x / 262144 * 262144 + x / 4096 % 64 * 4096 + x / 64 % 64 * 64 + x % 64,
        0 <= x / 262144 < 64,
{
    let q = x / 64;
    let p = x / 4096;
    assert(x == q * 64 + x % 64);
    assert(p == q / 64);
    assert(q == p * 64 + q % 64);
    assert(x / 262144 == p / 64);
    assert(p == p / 64 * 64 + p % 64);
}

/// The bytes that a group stands for are the only ones.
proof fn lemma_group_injective(a: u8, b: u8, c: u8, d: u8, e: u8, f: u8)
    requires
        base64_group(a, b, c) == base64_group(d, e, f),
    ensures
        a == d,
        b == e,
        c == f,
{
    let x = a * 65536 + b * 256 + c;
    let y = d * 65536 + e * 256 + f;
    let g = base64_group(a, b, c);
    let h = base64_group(d, e, f);
    assert(g[0] == h[0] && g[1] == h[1] && g[2] == h[2] && g[3] == h[3]);
    lemma_four_groups(x);
    lemma_four_groups(y);
    assert(x / 262144 == y / 262144) by {
        lemma_symbol_injective(x / 262144, y / 262144);
    }
    assert(x / 4096 % 64 == y / 4096 % 64) by {
        lemma_symbol_injective(x / 4096 % 64, y / 4096 % 64);
    }
    assert(x / 64 % 64 == y / 64 % 64) by {
        lemma_symbol_injective(x / 64 % 64, y / 64 % 64);
    }
    assert(x % 64 == y % 64) by {
        lemma_symbol_injective(x % 64, y % 64);
    }
    assert(x == y);
}

/// No padding stands in a group.
proof fn lemma_group_unpadded(a: u8, b: u8, c: u8, i: int)
    requires
        0 <= i < 4,
    ensures
        base64_group(a, b, c)[i] != '=',
{
    let x = a * 65536 + b * 256 + c;
    lemma_four_groups(x);
    lemma_symbol_injective(x / 262144, x / 262144);
    lemma_symbol_injective(x / 4096 % 64, x / 4096 % 64);
    lemma_symbol_injective(x / 64 % 64, x / 64 % 64);
    lemma_symbol_injective(x % 64, x % 64);
}

/// A Base64 text stands for one sequence of bytes.
pub proof fn lemma_base64_injective(x: Seq<u8>, y: Seq<u8>)
    requires
        base64_text(x) == base64_text(y),
    ensures
        x == y,
    decreases x.len(),
{
    lemma_base64_shape(x);
    lemma_base64_shape(y);
    let t = base64_text(x);
    let u = base64_text(y);
    if x.len() >= 3 && y.len() >= 3 {
        let g = base64_group(x[0], x[1], x[2]);
        let h = base64_group(y[0], y[1], y[2]);
        assert(g =~= t.take(4));
        assert(h =~= u.take(4));
        lemma_group_injective(x[0], x[1], x[2], y[0], y[1], y[2]);
        assert(base64_text(x.skip(3)) =~= t.skip(4));
        assert(base64_text(y.skip(3)) =~= u.skip(4));
        lemma_base64_injective(x.skip(3), y.skip(3));
        assert(x =~= seq![x[0], x[1], x[2]] + x.skip(3));
        assert(y =~= seq![y[0], y[1], y[2]] + y.skip(3));
    } else if x.len() >= 3 {
        lemma_base64_short(y, x);
    } else if y.len() >= 3 {
        lemma_base64_short(x, y);
    } else if x.len() == 0 || y.len() == 0 {
        assert(x =~= y);
    } else {
        let a = x[0];
        let b = if x.len() == 2 {
            x[1]
        } else {
            0u8
        };
        let c = y[0];
        let d = if y.len() == 2 {
            y[1]
        } else {
            0u8
        };
        let g = base64_group(a, b, 0);
        let h = base64_group(c, d, 0);
        assert(t[0] == g[0] && t[1] == g[1]);
        assert(u[0] == h[0] && u[1] == h[1]);
        lemma_group_unpadded(a, b, 0, 2);
        lemma_group_unpadded(c, d, 0, 2);
        if x.len() == 2 {
            assert(t[2] == g[2]);
        } else {
            assert(t[2] == '=');
        }
        if y.len() == 2 {
            assert(u[2] == h[2]);
        } else {
            assert(u[2] == '=');
        }
        assert(x.len() == y.len());
        if x.len() == 1 {
            assert((a * 65536) / 64 % 64 == 0);
            assert((c * 65536) / 64 % 64 == 0);
        }
        assert((a * 65536 + b * 256) % 64 == 0);
        assert((c * 65536 + d * 256) % 64 == 0);
        assert(g =~= h);
        lemma_group_injective(a, b, 0, c, d, 0);
        assert(x =~= y);
    }
}

/// A text of fewer than three bytes is not that of three or more.
proof fn lemma_base64_short(short: Seq<u8>, long: Seq<u8>)
    requires
        short.len() < 3,
        long.len() >= 3,
    ensures
        base64_text(short) != base64_text(long),
{
    lemma_base64_shape(short);
    lemma_base64_shape(long);
    let t = base64_text(short);
    let u = base64_text(long);
    if t == u {
        assert(u[3] == base64_group(long[0], long[1], long[2])[3]);
        lemma_group_unpadded(long[0], long[1], long[2], 3);
        assert(t[3] == '=');
    }
}

/// Decodes a Base64 text into the beginning of a buffer and returns how many
/// bytes it stands for.
///
/// Calls `base64ct::Base64::decode`. It succeeds exactly when the text is the
/// padded standard Base64 text of bytes that fit into the buffer, and then
/// puts these bytes at the beginning of the buffer and leaves the rest of it.
/// What it leaves in the buffer when it fails is not stated.
#[verifier::external_body]
fn base64_decode(text: &str, output: &mut [u8]) -> (r: Result<usize, ()>)
    ensures
        final(output)@.len() == old(output)@.len(),
        r matches Ok(n) ==> n <= old(output)@.len() && text@ == base64_text(
            final(output)@.take(n as int),
        ) && final(output)@.skip(n as int) == old(output)@.skip(n as int),
        r is Err ==> forall|data: Seq<u8>|
            text@ == #[trigger] base64_text(data) ==> data.len() > final(output)@.len(),
{
    match base64ct::Base64::decode(text, output) {
        Ok(bytes) => Ok(bytes.len()),
        Err(_) => Err(()),
    }
}

/// What decoding a chunk gives: the number of bytes that came out with the
/// chunk's metadata, or what is wrong with the chunk.
///
/// `before` and `after` are the output before and after.
pub open spec fn decodes_to(
    decoded: Option<BinaryPayload>,
    before: Seq<u8>,
    after: Seq<u8>,
    r: Result<(usize, ChunkMetadata), &'static str>,
) -> bool {
    &&& after.len() == before.len()
    &&& match decoded {
        None => r matches Err(e) && e@ == "Failed to parse JSON"@ && after == before,
        Some(payload) => match r {
            Ok((len, metadata)) => {
                &&& len <= after.len()
                &&& payload.frame@ == base64_text(after.take(len as int))
                &&& after.skip(len as int) == before.skip(len as int)
                &&& metadata == (ChunkMetadata {
                    requires_response: payload.requires_response,
                    chunk_index: payload.chunk_index,
                    total_chunks: payload.total_chunks,
                })
            },
            Err(e) => {
                &&& e@ == "Failed to decode base64"@
                &&& forall|data: Seq<u8>|
                    payload.frame@ == #[trigger] base64_text(data) ==> data.len() > after.len()
            },
        },
    }
}

/// Decodes the bytes of a chunk into `output`; `None` stands for a message
/// that is not a chunk.
pub fn decode_payload(decoded: Option<BinaryPayload<'_>>, output: &mut [u8]) -> (r: Result<
    (usize, ChunkMetadata),
    &'static str,
>)
    ensures
        decodes_to(decoded, old(output)@, final(output)@, r),
{
    let payload: BinaryPayload<'_> = match decoded {
        Some(payload) => payload,
        None => {
            return Err("Failed to parse JSON");
        },
    };
    let metadata = ChunkMetadata {
        requires_response: payload.requires_response,
        chunk_index: payload.chunk_index,
        total_chunks: payload.total_chunks,
    };
    match base64_decode(payload.frame, output) {
        Ok(len) => Ok((len, metadata)),
        Err(()) => Err("Failed to decode base64"),
    }
}

/// Decodes a chunk from raw JSON bytes, which may be followed by a zero byte,
/// into `output`. `decode` decodes the JSON, and returns `None` where it
/// cannot. The number of bytes that came out and the chunk's metadata are
/// returned.
pub fn decode_chunk<'a, D: FnOnce(&'a [u8]) -> Option<BinaryPayload<'a>>>(
    json_data: &'a [u8],
    output: &mut [u8],
    decode: D,
) -> (r: Result<(usize, ChunkMetadata), &'static str>)
    requires
        forall|json: &'a [u8]|
            json@ == crate::text::until_zero(json_data@) ==> #[trigger] call_requires(
                decode,
                (json,),
            ),
    ensures
        exists|json: &'a [u8], decoded: Option<BinaryPayload<'a>>|
            json@ == crate::text::until_zero(json_data@) && #[trigger] call_ensures(
                decode,
                (json,),
                decoded,
            ) && decodes_to(decoded, old(output)@, final(output)@, r),
{
    let json: &'a [u8] = cut_at_zero(json_data);
    let decoded: Option<BinaryPayload<'a>> = decode(json);
    assert(call_ensures(decode, (json,), decoded));
    decode_payload(decoded, output)
}

/// A chunk that carries bytes in Base64 gives these bytes back, if they fit.
pub proof fn law_chunk_round_trip(
    data: Seq<u8>,
    payload: BinaryPayload,
    before: Seq<u8>,
    after: Seq<u8>,
    r: Result<(usize, ChunkMetadata), &'static str>,
)
    requires
        payload.frame@ == base64_text(data),
        data.len() <= before.len(),
        decodes_to(Some(payload), before, after, r),
    ensures
        r is Ok,
        r->Ok_0.0 == data.len(),
        after.take(data.len() as int) == data,
{
    let len = r->Ok_0.0;
    lemma_base64_injective(after.take(len as int), data);
}

/// The symbols of Base64 are the letters, upper case first, the digits, `+` and
/// `/`, in this order.
pub proof fn law_symbols(bits: int)
    requires
        0 <= bits < 63,
    ensures
        base64_symbol(0) == 'A',
        base64_symbol(26) == 'a',
        base64_symbol(52) == '0',
        base64_symbol(62) == '+',
        base64_symbol(63) == '/',
        bits != 25 && bits != 51 && bits < 61 ==> base64_symbol(bits + 1) as u32 == base64_symbol(
            bits,
        ) as u32 + 1,
{
    reveal(base64_symbol);
}

/// A chunk is decoded: its bytes come out as they were encoded, if they fit, with
/// its number, the number of chunks, and whether an answer is wanted, as the
/// message has them. What is not a chunk, or not Base64, is refused.
pub proof fn law_chunk_is_decoded(
    decoded: Option<BinaryPayload<'_>>,
    output: &mut [u8],
    r: Result<(usize, ChunkMetadata), &'static str>,
    data: Seq<u8>,
)
    requires
        call_ensures(decode_payload, (decoded, output), r),
    ensures
        final(output)@.len() == old(output)@.len(),
        decoded is None ==> final(output)@ == old(output)@ && (r matches Err(e) && e@
            == "Failed to parse JSON"@),
        decoded matches Some(p) ==> {
            &&& p.frame@ == base64_text(data) && data.len() <= old(output)@.len() ==> r is Ok && {
                &&& r->Ok_0.0 == data.len()
                &&& final(output)@.take(data.len() as int) == data
            }
            &&& p.frame@ == base64_text(data) && data.len() > old(output)@.len() ==> r is Err
            &&& r matches Ok((n, m)) ==> {
                &&& m.chunk_index == p.chunk_index
                &&& m.total_chunks == p.total_chunks
                &&& m.requires_response <==> p.requires_response
                &&& p.frame@ == base64_text(final(output)@.take(n as int))
                &&& final(output)@.skip(n as int) == old(output)@.skip(n as int)
            }
            &&& r matches Err(e) ==> e@ == "Failed to decode base64"@
        },
{
    if let Some(p) = decoded {
        if p.frame@ == base64_text(data) {
            if data.len() <= old(output)@.len() {
                law_chunk_round_trip(data, p, old(output)@, final(output)@, r);
            } else if let Ok((n, _)) = r {
                lemma_base64_injective(final(output)@.take(n as int), data);
            }
        }
    }
}

/// A chunk comes from what the decoder makes of the bytes before the first zero
/// byte, and only from that.
pub proof fn law_chunk_comes_from_message<'a, D: FnOnce(&'a [u8]) -> Option<BinaryPayload<'a>>>(
    json_data: &'a [u8],
    output: &mut [u8],
    decode: D,
    r: Result<(usize, ChunkMetadata), &'static str>,
)
    requires
        call_ensures(decode_chunk::<D>, (json_data, output, decode), r),
    ensures
        r matches Ok((n, m)) ==> exists|json: &'a [u8], p: BinaryPayload<'a>|
            json@.is_prefix_of(json_data@) && !json@.contains(0u8) && #[trigger] call_ensures(
                decode,
                (json,),
                Some(p),
            ) && p.frame@ == base64_text(final(output)@.take(n as int)) && m.chunk_index
                == p.chunk_index && m.total_chunks == p.total_chunks && m.requires_response
                == p.requires_response,
        (forall|json: &'a [u8], d: Option<BinaryPayload<'a>>| #[trigger]
            call_ensures(decode, (json,), d) ==> d is None) ==> r is Err && final(output)@ == old(
            output,
        )@,
{
    json_data@.index_of_first_ensures(0u8);
    let cut = crate::text::until_zero(json_data@);
    assert(cut =~= json_data@.subrange(0, cut.len() as int));
    assert(!cut.contains(0u8)) by {
        if cut.contains(0u8) {
            let i = choose|i: int| 0 <= i < cut.len() && cut[i] == 0u8;
            assert(json_data@[i] == 0u8);
        }
    }
}

/// Each byte of a group keeps its place: the first symbol holds the upper six
/// bits of the first byte, and the others the bits that follow.
pub proof fn law_bits_of_group(a: u8, b: u8, c: u8)
    ensures
        base64_group(a, b, c).len() == 4,
        base64_group(a, b, c)[0] == base64_symbol(a as int / 4),
        base64_group(a, b, c)[1] == base64_symbol(a as int % 4 * 16 + b as int / 16),
        base64_group(a, b, c)[2] == base64_symbol(b as int % 16 * 4 + c as int / 64),
        base64_group(a, b, c)[3] == base64_symbol(c as int % 64),
{
    let bits = a * 65536 + b * 256 + c;
    let s = a as int / 4;
    let t = a as int % 4 * 16 + b as int / 16;
    let u = b as int % 16 * 4 + c as int / 64;
    let v = c as int % 64;
    lemma_digits(s, t, u, v);
    assert(bits == s * 262144 + t * 4096 + u * 64 + v);
}

/// Four groups of six bits are found again in the number that they make up.
proof fn lemma_digits(s: int, t: int, u: int, v: int)
    requires
        0 <= s < 64,
        0 <= t < 64,
        0 <= u < 64,
        0 <= v < 64,
    ensures
        ({
            let x = s * 262144 + t * 4096 + u * 64 + v;
            &&& x / 262144 == s
            &&& x / 4096 % 64 == t
            &&& x / 64 % 64 == u
            &&& x % 64 == v
        }),
{
    let x = s * 262144 + t * 4096 + u * 64 + v;
    let p = s * 64 + t;
    let q = p * 64 + u;
    assert(x == q * 64 + v);
    assert(x / 64 == q);
    assert(x == p * 4096 + (u * 64 + v));
    assert(x / 4096 == p);
    assert(p % 64 == t);
    assert(q % 64 == u);
    assert(x == s * 262144 + (t * 4096 + u * 64 + v));
}

} // verus!
