//! Texts of at most 64 bytes and lists of at most four of them, in the
//! fixed-capacity collections of the `heapless` crate; and the texts of other
//! sizes: names of devices, names of networks, and requests.

use vstd::prelude::*;

verus! {

/// `heapless::String`.
#[verifier::external_type_specification]
#[verifier::external_body]
pub struct ExHeaplessString<const N: usize>(heapless::String<N>);

/// `heapless::Vec`.
#[verifier::external_type_specification]
#[verifier::external_body]
#[verifier::reject_recursive_types(T)]
pub struct ExHeaplessVec<T, const N: usize>(heapless::Vec<T, N>);

/// Bytes that a short text holds at most.
pub const SHORT_TEXT_SIZE: usize = 64;

/// Texts that a list holds at most.
pub const LIST_SIZE: usize = 4;

/// What a short text holds.
pub uninterp spec fn text_of(text: heapless::String<64>) -> Seq<char>;

/// What a list holds.
pub uninterp spec fn texts_of(list: heapless::Vec<heapless::String<64>, 4>) -> Seq<Seq<char>>;

/// The text fits into a short text.
pub open spec fn fits(text: Seq<char>) -> bool {
    vstd::utf8::encode_utf8(text).len() <= SHORT_TEXT_SIZE
}

/// An empty short text.
///
/// Calls `heapless::String::new`, which returns an empty string.
#[verifier::external_body]
pub(crate) fn empty_text() -> (r: heapless::String<64>)
    ensures
        text_of(r) == Seq::<char>::empty(),
{
    heapless::String::new()
}

/// Appends to a short text, if it fits, and returns whether it did.
///
/// Calls `heapless::String::push_str`, which appends the text if the bytes of
/// both together fit into the capacity, and else fails and changes nothing.
#[verifier::external_body]
pub(crate) fn append(text: &mut heapless::String<64>, more: &str) -> (r: bool)
    ensures
        r == fits(text_of(*old(text)) + more@),
        text_of(*final(text)) == (if r {
            text_of(*old(text)) + more@
        } else {
            text_of(*old(text))
        }),
{
    text.push_str(more).is_ok()
}

/// A short text as a string slice.
///
/// Calls `heapless::String::as_str`, which returns the contents.
#[verifier::external_body]
pub(crate) fn as_str(text: &heapless::String<64>) -> (r: &str)
    ensures
        r@ == text_of(*text),
        fits(r@),
{
    text.as_str()
}

/// A copy of a short text.
///
/// Calls `heapless::String::clone`, which returns a string with the same
/// contents.
#[verifier::external_body]
pub(crate) fn copy_of(text: &heapless::String<64>) -> (r: heapless::String<64>)
    ensures
        text_of(r) == text_of(*text),
{
    text.clone()
}

/// An empty list.
///
/// Calls `heapless::Vec::new`, which returns an empty vector.
#[verifier::external_body]
pub(crate) fn empty_list() -> (r: heapless::Vec<heapless::String<64>, 4>)
    ensures
        texts_of(r) == Seq::<Seq<char>>::empty(),
{
    heapless::Vec::new()
}

/// The texts of a list.
///
/// Calls `heapless::Vec::as_slice`, which returns the items in their order;
/// there are never more than the capacity.
#[verifier::external_body]
pub(crate) fn items(list: &heapless::Vec<heapless::String<64>, 4>) -> (r: &[heapless::String<64>])
    ensures
        r@.len() == texts_of(*list).len(),
        r@.len() <= LIST_SIZE,
        forall|i: int| 0 <= i < r@.len() ==> text_of(#[trigger] r@[i]) == texts_of(*list)[i],
{
    list.as_slice()
}

/// Adds a text to the end of a list, if there is room, and returns whether
/// there was.
///
/// Calls `heapless::Vec::push`, which appends the item unless the vector is
/// full, and else changes nothing.
#[verifier::external_body]
pub(crate) fn push(
    list: &mut heapless::Vec<heapless::String<64>, 4>,
    text: heapless::String<64>,
) -> (r: bool)
    ensures
        r == (texts_of(*old(list)).len() < LIST_SIZE),
        texts_of(*final(list)) == (if r {
            texts_of(*old(list)).push(text_of(text))
        } else {
            texts_of(*old(list))
        }),
{
    list.push(text).is_ok()
}

/// Takes the last text from a list.
///
/// Calls `heapless::Vec::pop`, which removes and returns the last item, if
/// there is one.
#[verifier::external_body]
pub(crate) fn pop(list: &mut heapless::Vec<heapless::String<64>, 4>) -> (r: Option<
    heapless::String<64>,
>)
    ensures
        match r {
            Some(text) => texts_of(*old(list)).len() > 0 && text_of(text) == texts_of(
                *old(list),
            ).last() && texts_of(*final(list)) == texts_of(*old(list)).drop_last(),
            None => texts_of(*old(list)).len() == 0 && texts_of(*final(list)) == texts_of(
                *old(list),
            ),
        },
{
    list.pop()
}

/// Takes the text at a place from a list.
///
/// Calls `heapless::Vec::remove`, which removes and returns the item at an
/// index and closes the gap. It panics on an index that is not in the vector.
#[verifier::external_body]
pub(crate) fn remove(list: &mut heapless::Vec<heapless::String<64>, 4>, index: usize) -> (r:
    heapless::String<64>)
    requires
        index < texts_of(*old(list)).len(),
    ensures
        text_of(r) == texts_of(*old(list))[index as int],
        texts_of(*final(list)) == texts_of(*old(list)).remove(index as int),
{
    list.remove(index)
}

/// Bytes that the name of a device holds at most.
pub const NAME_SIZE: usize = 12;

/// Bytes that the name of a network holds at most.
pub const MAX_SSID_SIZE: usize = 32;

/// Bytes that a request holds at most.
pub const MAX_REQUEST_SIZE: usize = 512;

/// What the name of a device holds.
pub uninterp spec fn name_of(name: heapless::String<12>) -> Seq<char>;

/// What the name of a network holds.
pub uninterp spec fn ssid_of(ssid: heapless::String<32>) -> Seq<char>;

/// What a request holds.
pub uninterp spec fn request_of(request: heapless::String<512>) -> Seq<char>;

/// The bytes that a text takes.
pub open spec fn size_of(text: Seq<char>) -> nat {
    vstd::utf8::encode_utf8(text).len()
}

/// An empty name of a device.
///
/// Calls `heapless::String::new`, which returns an empty string.
#[verifier::external_body]
pub(crate) fn empty_name() -> (r: heapless::String<12>)
    ensures
        name_of(r) == Seq::<char>::empty(),
{
    heapless::String::new()
}

/// Appends to the name of a device, if it fits, and returns whether it did.
///
/// Calls `heapless::String::push_str`, which appends the text if the bytes of
/// both together fit into the capacity, and else fails and changes nothing.
#[verifier::external_body]
pub(crate) fn append_to_name(name: &mut heapless::String<12>, more: &str) -> (r: bool)
    ensures
        r == (size_of(name_of(*old(name)) + more@) <= NAME_SIZE),
        name_of(*final(name)) == (if r {
            name_of(*old(name)) + more@
        } else {
            name_of(*old(name))
        }),
{
    name.push_str(more).is_ok()
}

/// The name of a network with these contents, if they fit.
///
/// Calls `heapless::String::try_from`, which returns a string with the
/// contents of the text if its bytes fit into the capacity, and else fails.
#[verifier::external_body]
pub(crate) fn ssid_text(text: &str) -> (r: Option<heapless::String<32>>)
    ensures
        match r {
            Some(ssid) => size_of(text@) <= MAX_SSID_SIZE && ssid_of(ssid) == text@,
            None => size_of(text@) > MAX_SSID_SIZE,
        },
{
    heapless::String::try_from(text).ok()
}

/// An empty request.
///
/// Calls `heapless::String::new`, which returns an empty string.
#[verifier::external_body]
pub(crate) fn empty_request() -> (r: heapless::String<512>)
    ensures
        request_of(r) == Seq::<char>::empty(),
{
    heapless::String::new()
}

/// Appends to a request, if it fits, and returns whether it did.
///
/// Calls `heapless::String::push_str`, which appends the text if the bytes of
/// both together fit into the capacity, and else fails and changes nothing.
#[verifier::external_body]
pub(crate) fn append_to_request(request: &mut heapless::String<512>, more: &str) -> (r: bool)
    ensures
        r == (size_of(request_of(*old(request)) + more@) <= MAX_REQUEST_SIZE),
        request_of(*final(request)) == (if r {
            request_of(*old(request)) + more@
        } else {
            request_of(*old(request))
        }),
{
    request.push_str(more).is_ok()
}

/// A short text with these contents, if they fit.
pub fn short_text(text: &str) -> (r: Option<heapless::String<64>>)
    ensures
        match r {
            Some(t) => fits(text@) && text_of(t) == text@,
            None => !fits(text@),
        },
{
    let mut t: heapless::String<64> = empty_text();
    proof {
        assert(text_of(t) + text@ =~= text@);
    }
    if append(&mut t, text) {
        Some(t)
    } else {
        None
    }
}

/// A text is taken whole or not at all: it is, exactly when it takes at most 64
/// bytes.
pub proof fn law_short_text(text: &str, r: Option<heapless::String<64>>)
    requires
        call_ensures(short_text, (text,), r),
    ensures
        r is Some <==> vstd::utf8::encode_utf8(text@).len() <= 64,
        r matches Some(t) ==> text_of(t) == text@,
{
}

} // verus!
