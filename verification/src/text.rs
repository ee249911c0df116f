//! Text as characters and as UTF-8 bytes.

use vstd::prelude::*;
use vstd::string::*;

verus! {

/// Text and bytes are the same up to encoding: equal bytes, equal text.
pub proof fn lemma_same_encoding(a: Seq<char>, b: Seq<char>)
    requires
        vstd::utf8::encode_utf8(a) == vstd::utf8::encode_utf8(b),
    ensures
        a == b,
{
    vstd::utf8::encode_utf8_decode_utf8(a);
    vstd::utf8::encode_utf8_decode_utf8(b);
}

/// The encoding of two texts in a row is their encodings in a row.
pub proof fn lemma_encode_concat(a: Seq<char>, b: Seq<char>)
    ensures
        vstd::utf8::encode_utf8(a + b) == vstd::utf8::encode_utf8(a) + vstd::utf8::encode_utf8(b),
    decreases a.len(),
{
    if a.len() == 0 {
        assert(a + b =~= b);
        assert(vstd::utf8::encode_utf8(a) =~= Seq::<u8>::empty());
        assert(vstd::utf8::encode_utf8(a) + vstd::utf8::encode_utf8(b)
            =~= vstd::utf8::encode_utf8(b));
    } else {
        lemma_encode_concat(a.drop_first(), b);
        assert((a + b).drop_first() =~= a.drop_first() + b);
        assert((a + b)[0] == a[0]);
        assert(vstd::utf8::encode_utf8(a + b) =~= vstd::utf8::encode_utf8(a)
            + vstd::utf8::encode_utf8(b));
    }
}

/// Whether two byte slices are equal.
pub fn same_bytes(a: &[u8], b: &[u8]) -> (r: bool)
    ensures
        r == (a@ == b@),
{
    if a.len() != b.len() {
        return false;
    }
    let mut i: usize = 0;
    while i < a.len()
        invariant
            a@.len() == b@.len(),
            i <= a@.len(),
            forall|j: int| 0 <= j < i ==> #[trigger] a@[j] == b@[j],
        decreases a@.len() - i,
    {
        if a[i] != b[i] {
            return false;
        }
        i += 1;
    }
    assert(a@ =~= b@);
    true
}

/// Whether two texts are equal.
pub fn same_text(a: &str, b: &str) -> (r: bool)
    ensures
        r == (a@ == b@),
{
    let r: bool = same_bytes(a.as_bytes(), b.as_bytes());
    proof {
        if r {
            lemma_same_encoding(a@, b@);
        }
    }
    r
}

/// Whether a text begins with another one.
pub fn starts_with(text: &str, prefix: &str) -> (r: bool)
    ensures
        r == prefix@.is_prefix_of(text@),
{
    let n: usize = prefix.unicode_len();
    if text.unicode_len() < n {
        return false;
    }
    same_text(text.substring_char(0, n), prefix)
}

/// Whether a text ends with another one.
pub fn ends_with(text: &str, suffix: &str) -> (r: bool)
    ensures
        r == suffix@.is_suffix_of(text@),
{
    let len: usize = text.unicode_len();
    let n: usize = suffix.unicode_len();
    if len < n {
        return false;
    }
    same_text(text.substring_char(len - n, len), suffix)
}

/// The first place of a character, counted in characters.
pub fn find_char(text: &str, c: char) -> (r: Option<usize>)
    ensures
        match r {
            Some(i) => text@.index_of_first(c) == Some(i as int) && i < text@.len(),
            None => text@.index_of_first(c) is None,
        },
{
    let len: usize = text.unicode_len();
    let mut i: usize = 0;
    proof {
        text@.index_of_first_ensures(c);
    }
    for ch in it: text.chars()
        invariant
            len == text@.len(),
            i == it.index(),
            it.seq() == text@,
            forall|j: int| 0 <= j < i ==> #[trigger] text@[j] != c,
    {
        if ch == c {
            proof {
                text@.index_of_first_ensures(c);
            }
            return Some(i);
        }
        i += 1;
    }
    None
}

/// The last place of a character, counted in characters.
pub fn rfind_char(text: &str, c: char) -> (r: Option<usize>)
    ensures
        match r {
            Some(i) => text@.index_of_last(c) == Some(i as int) && i < text@.len(),
            None => text@.index_of_last(c) is None,
        },
{
    let len: usize = text.unicode_len();
    let mut i: usize = 0;
    let mut found: Option<usize> = None;
    for ch in it: text.chars()
        invariant
            len == text@.len(),
            i == it.index(),
            it.seq() == text@,
            match found {
                Some(k) => k < i && text@[k as int] == c && forall|j: int|
                    k < j < i ==> #[trigger] text@[j] != c,
                None => forall|j: int| 0 <= j < i ==> #[trigger] text@[j] != c,
            },
    {
        if ch == c {
            found = Some(i);
        }
        i += 1;
    }
    proof {
        text@.index_of_last_ensures(c);
    }
    found
}

/// The first place of a byte.
pub fn find_byte(bytes: &[u8], b: u8) -> (r: Option<usize>)
    ensures
        match r {
            Some(i) => bytes@.index_of_first(b) == Some(i as int) && i < bytes@.len(),
            None => bytes@.index_of_first(b) is None,
        },
{
    let mut i: usize = 0;
    proof {
        bytes@.index_of_first_ensures(b);
    }
    while i < bytes.len()
        invariant
            i <= bytes@.len(),
            forall|j: int| 0 <= j < i ==> #[trigger] bytes@[j] != b,
        ensures
            i == bytes@.len(),
            forall|j: int| 0 <= j < bytes@.len() ==> #[trigger] bytes@[j] != b,
        decreases bytes@.len() - i,
    {
        if bytes[i] == b {
            proof {
                bytes@.index_of_first_ensures(b);
            }
            return Some(i);
        }
        i += 1;
    }
    None
}

/// The bytes before the first zero byte.
pub open spec fn until_zero(bytes: Seq<u8>) -> Seq<u8> {
    match bytes.index_of_first(0u8) {
        Some(i) => bytes.take(i),
        None => bytes,
    }
}

/// The bytes before the first zero byte.
pub fn cut_at_zero(bytes: &[u8]) -> (r: &[u8])
    ensures
        r@ == until_zero(bytes@),
{
    match find_byte(bytes, 0) {
        Some(i) => &bytes[0..i],
        None => bytes,
    }
}

/// The text that bytes encode, if they are valid UTF-8.
///
/// Calls `core::str::from_utf8`, which returns the text exactly when the bytes
/// are valid UTF-8; the text is then the one whose encoding the bytes are.
#[verifier::external_body]
pub(crate) fn utf8_text(bytes: &[u8]) -> (r: Option<&str>)
    ensures
        r is Some <==> vstd::utf8::valid_utf8(bytes@),
        r matches Some(s) ==> vstd::utf8::encode_utf8(s@) == bytes@,
{
    core::str::from_utf8(bytes).ok()
}

/// The character is white space: it has the Unicode property of that name.
pub open spec fn is_white_space(c: char) -> bool {
    let n = c as u32;
    ||| 0x9 <= n <= 0xD
    ||| n == 0x20
    ||| n == 0x85
    ||| n == 0xA0
    ||| n == 0x1680
    ||| 0x2000 <= n <= 0x200A
    ||| n == 0x2028
    ||| n == 0x2029
    ||| n == 0x202F
    ||| n == 0x205F
    ||| n == 0x3000
}

/// Text without the white space that it begins with.
pub open spec fn trimmed_start(text: Seq<char>) -> Seq<char>
    decreases text.len(),
{
    if text.len() > 0 && is_white_space(text[0]) {
        trimmed_start(text.skip(1))
    } else {
        text
    }
}

/// Text without the white space that it ends with.
pub open spec fn trimmed_end(text: Seq<char>) -> Seq<char>
    decreases text.len(),
{
    if text.len() > 0 && is_white_space(text.last()) {
        trimmed_end(text.drop_last())
    } else {
        text
    }
}

/// Text without the white space around it.
pub open spec fn trimmed(text: Seq<char>) -> Seq<char> {
    trimmed_end(trimmed_start(text))
}

/// Text without the white space around it.
///
/// Calls `str::trim`, which removes leading and trailing characters with the
/// Unicode property White_Space and nothing else.
#[verifier::external_body]
pub(crate) fn trim(text: &str) -> (r: &str)
    ensures
        r@ == trimmed(text@),
{
    text.trim()
}

/// The character for a digit, up to 15.
pub open spec fn digit(n: int) -> char {
    if n < 10 {
        (48 + n) as char
    } else {
        (55 + n) as char
    }
}

/// The text of a digit, up to 15.
pub fn digit_text(n: u8) -> (r: &'static str)
    requires
        n < 16,
    ensures
        r@ == seq![digit(n as int)],
{
    let r: &'static str = match n {
        0 => "0",
        1 => "1",
        2 => "2",
        3 => "3",
        4 => "4",
        5 => "5",
        6 => "6",
        7 => "7",
        8 => "8",
        9 => "9",
        10 => "A",
        11 => "B",
        12 => "C",
        13 => "D",
        14 => "E",
        _ => "F",
    };
    proof {
        reveal_strlit("0");
        reveal_strlit("1");
        reveal_strlit("2");
        reveal_strlit("3");
        reveal_strlit("4");
        reveal_strlit("5");
        reveal_strlit("6");
        reveal_strlit("7");
        reveal_strlit("8");
        reveal_strlit("9");
        reveal_strlit("A");
        reveal_strlit("B");
        reveal_strlit("C");
        reveal_strlit("D");
        reveal_strlit("E");
        reveal_strlit("F");
        assert(r@ =~= seq![digit(n as int)]);
    }
    r
}

/// A number in decimal.
pub open spec fn decimal(n: nat) -> Seq<char>
    decreases n,
{
    if n < 10 {
        seq![digit(n as int)]
    } else {
        decimal(n / 10).push(digit((n % 10) as int))
    }
}

/// Appends a number in decimal.
pub fn append_decimal(text: &mut String, n: u64)
    ensures
        final(text)@ == old(text)@ + decimal(n as nat),
    decreases n,
{
    if n >= 10 {
        append_decimal(text, n / 10);
    }
    text.append(digit_text((n % 10) as u8));
    proof {
        assert(text@ =~= old(text)@ + decimal(n as nat));
    }
}

/// Bytes in hexadecimal, two upper case digits each.
pub open spec fn upper_hex(bytes: Seq<u8>) -> Seq<char> {
    Seq::new(
        2 * bytes.len(),
        |i: int|
            if i % 2 == 0 {
                digit(bytes[i / 2] as int / 16)
            } else {
                digit(bytes[i / 2] as int % 16)
            },
    )
}

/// Hexadecimal text is ASCII.
pub proof fn lemma_hex_is_ascii(bytes: Seq<u8>)
    ensures
        vstd::utf8::is_ascii_chars(upper_hex(bytes)),
{
    assert forall|i: int| 0 <= i < upper_hex(bytes).len() implies 0 <= #[trigger] upper_hex(
        bytes,
    )[i] as int <= 127 by {
        let b = bytes[i / 2] as int;
        assert(0 <= b / 16 < 16 && 0 <= b % 16 < 16);
    }
}

/// Different digits have different characters.
proof fn lemma_digit(m: int, n: int)
    requires
        0 <= m < 16,
        0 <= n < 16,
        digit(m) == digit(n),
    ensures
        m == n,
{
    assert(digit(m) as u32 == if m < 10 {
        48 + m
    } else {
        55 + m
    });
    assert(digit(n) as u32 == if n < 10 {
        48 + n
    } else {
        55 + n
    });
}

/// Different bytes have different hexadecimal texts.
pub proof fn law_hex_is_unique(a: Seq<u8>, b: Seq<u8>)
    requires
        upper_hex(a) == upper_hex(b),
    ensures
        a == b,
{
    assert(upper_hex(a).len() == 2 * a.len() && upper_hex(b).len() == 2 * b.len());
    assert forall|i: int| 0 <= i < a.len() implies a[i] == b[i] by {
        let even = 2 * i;
        let odd = 2 * i + 1;
        assert(even / 2 == i && odd / 2 == i && even % 2 == 0 && odd % 2 == 1);
        assert(upper_hex(a)[even] == digit(a[i] as int / 16));
        assert(upper_hex(b)[even] == digit(b[i] as int / 16));
        assert(upper_hex(a)[odd] == digit(a[i] as int % 16));
        assert(upper_hex(b)[odd] == digit(b[i] as int % 16));
        lemma_digit(a[i] as int / 16, b[i] as int / 16);
        lemma_digit(a[i] as int % 16, b[i] as int % 16);
    }
    assert(a =~= b);
}

/// A number in decimal stands for itself: its digits, read as a number, give it
/// back, and it has no zero in front.
pub proof fn law_decimal_read_back(n: nat)
    ensures
        crate::ota::url::decimal_value(decimal(n)) == n,
        decimal(n).len() > 0,
        forall|i: int| 0 <= i < decimal(n).len() ==> '0' <= #[trigger] decimal(n)[i] <= '9',
        n > 0 ==> decimal(n)[0] != '0',
    decreases n,
{
    if n < 10 {
        assert(decimal(n).drop_last() =~= Seq::<char>::empty());
        reveal_with_fuel(crate::ota::url::decimal_value, 2);
    } else {
        law_decimal_read_back(n / 10);
        assert(decimal(n).drop_last() =~= decimal(n / 10));
        assert(decimal(n).last() == digit((n % 10) as int));
        assert(decimal(n)[0] == decimal(n / 10)[0]);
    }
}

/// What appending a number and a digit adds to a text.
pub proof fn law_numbers_are_appended(text: &mut String, n: u64, d: u8, r: &'static str)
    requires
        call_ensures(append_decimal, (text, n), ()),
        call_ensures(digit_text, (d,), r),
        d < 16,
    ensures
        final(text)@ == old(text)@ + decimal(n as nat),
        r@.len() == 1,
        d < 10 ==> r@[0] as u32 == '0' as u32 + d,
        d >= 10 ==> r@[0] as u32 == 'A' as u32 + (d - 10),
{
}

/// Where a character or a byte is found: there it is, and not before, or, from
/// the end, not after. Where it is not found, it is nowhere.
pub proof fn law_places(
    text: &str,
    c: char,
    first: Option<usize>,
    last: Option<usize>,
    bytes: &[u8],
    b: u8,
    place: Option<usize>,
    cut: &[u8],
)
    requires
        call_ensures(find_char, (text, c), first),
        call_ensures(rfind_char, (text, c), last),
        call_ensures(find_byte, (bytes, b), place),
        call_ensures(cut_at_zero, (bytes,), cut),
    ensures
        first is Some <==> text@.contains(c),
        first matches Some(i) ==> text@[i as int] == c && i < text@.len() && !text@.take(
            i as int,
        ).contains(c),
        last is Some <==> text@.contains(c),
        last matches Some(i) ==> text@[i as int] == c && i < text@.len() && !text@.skip(
            i + 1,
        ).contains(c),
        place is Some <==> bytes@.contains(b),
        place matches Some(i) ==> bytes@[i as int] == b && i < bytes@.len() && !bytes@.take(
            i as int,
        ).contains(b),
        cut@.is_prefix_of(bytes@) && !cut@.contains(0u8),
        cut@.len() < bytes@.len() ==> bytes@[cut@.len() as int] == 0,
{
    text@.index_of_first_ensures(c);
    text@.index_of_last_ensures(c);
    bytes@.index_of_first_ensures(b);
    bytes@.index_of_first_ensures(0u8);
    if let Some(i) = first {
        let head = text@.take(i as int);
        if head.contains(c) {
            let j = choose|j: int| 0 <= j < head.len() && head[j] == c;
            assert(text@[j] == c);
        }
    }
    if let Some(i) = last {
        let tail = text@.skip(i + 1);
        if tail.contains(c) {
            let j = choose|j: int| 0 <= j < tail.len() && tail[j] == c;
            assert(text@[i + 1 + j] == c);
        }
    }
    if let Some(i) = place {
        let head = bytes@.take(i as int);
        if head.contains(b) {
            let j = choose|j: int| 0 <= j < head.len() && head[j] == b;
            assert(bytes@[j] == b);
        }
    }
    assert(cut@ =~= bytes@.subrange(0, cut@.len() as int));
    if cut@.contains(0u8) {
        let j = choose|j: int| 0 <= j < cut@.len() && cut@[j] == 0u8;
        assert(bytes@[j] == 0u8);
    }
}

/// How texts are compared.
pub proof fn law_comparisons(
    a: &str,
    b: &str,
    same: bool,
    begins: bool,
    ends: bool,
    x: &[u8],
    y: &[u8],
    equal: bool,
)
    requires
        call_ensures(same_text, (a, b), same),
        call_ensures(starts_with, (a, b), begins),
        call_ensures(ends_with, (a, b), ends),
        call_ensures(same_bytes, (x, y), equal),
    ensures
        same <==> a@ == b@,
        begins <==> exists|rest: Seq<char>| a@ == #[trigger] (b@ + rest),
        ends <==> exists|front: Seq<char>| a@ == #[trigger] (front + b@),
        equal <==> x@ == y@,
{
    let n = b@.len() as int;
    if begins {
        assert(a@ =~= b@ + a@.skip(n));
    }
    if exists|rest: Seq<char>| a@ == #[trigger] (b@ + rest) {
        assert(a@.subrange(0, n) =~= b@);
    }
    if ends {
        assert(a@ =~= a@.take(a@.len() - n) + b@);
    }
    if exists|front: Seq<char>| a@ == #[trigger] (front + b@) {
        assert(a@.subrange(a@.len() - n, a@.len() as int) =~= b@);
    }
}

/// Trimmed text is what is left of a text without white space at either end:
/// only white space is taken away, and none is left at an end.
pub proof fn law_trimmed(text: Seq<char>) -> (ends: (int, int))
    ensures
        ({
            let (a, b) = ends;
            let r = trimmed(text);
            &&& 0 <= a <= b <= text.len()
            &&& r == text.subrange(a, b)
            &&& forall|i: int| 0 <= i < a ==> is_white_space(#[trigger] text[i])
            &&& forall|i: int| b <= i < text.len() ==> is_white_space(#[trigger] text[i])
            &&& r.len() > 0 ==> !is_white_space(r[0]) && !is_white_space(r.last())
        }),
        forall|c: char|
            ' ' == c || '\t' == c || '\n' == c || '\r' == c ==> #[trigger] is_white_space(c),
        forall|c: char| '!' <= c <= '~' ==> !#[trigger] is_white_space(c),
{
    let a = lemma_trimmed_start(text);
    let rest = trimmed_start(text);
    let n = lemma_trimmed_end(rest);
    assert(rest.take(n) =~= text.subrange(a, a + n));
    assert forall|i: int| a + n <= i < text.len() implies is_white_space(#[trigger] text[i]) by {
        assert(rest[i - a] == text[i]);
    }
    (a, a + n)
}

/// How many characters are taken away at the beginning.
proof fn lemma_trimmed_start(text: Seq<char>) -> (a: int)
    ensures
        0 <= a <= text.len(),
        trimmed_start(text) == text.skip(a),
        forall|i: int| 0 <= i < a ==> is_white_space(#[trigger] text[i]),
        a < text.len() ==> !is_white_space(text[a]),
    decreases text.len(),
{
    if text.len() > 0 && is_white_space(text[0]) {
        let b = lemma_trimmed_start(text.skip(1));
        assert(text.skip(1).skip(b) =~= text.skip(b + 1));
        assert forall|i: int| 0 <= i < b + 1 implies is_white_space(#[trigger] text[i]) by {
            if i > 0 {
                assert(text.skip(1)[i - 1] == text[i]);
            }
        }
        b + 1
    } else {
        assert(text.skip(0) =~= text);
        0
    }
}

/// How many characters are left before the end.
proof fn lemma_trimmed_end(text: Seq<char>) -> (n: int)
    ensures
        0 <= n <= text.len(),
        trimmed_end(text) == text.take(n),
        forall|i: int| n <= i < text.len() ==> is_white_space(#[trigger] text[i]),
        n > 0 ==> !is_white_space(text[n - 1]),
    decreases text.len(),
{
    if text.len() > 0 && is_white_space(text.last()) {
        let n = lemma_trimmed_end(text.drop_last());
        assert(text.drop_last().take(n) =~= text.take(n));
        assert forall|i: int| n <= i < text.len() implies is_white_space(#[trigger] text[i]) by {
            if i < text.len() - 1 {
                assert(text.drop_last()[i] == text[i]);
            }
        }
        n
    } else {
        assert(text.take(text.len() as int) =~= text);
        text.len() as int
    }
}

} // verus!
