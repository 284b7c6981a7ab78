//! What the library takes from outside crates, and what it relies on there.
use vstd::arithmetic::power::pow;
use vstd::prelude::*;

verus! {

/// `url::Url`: a parsed URL, carried through.
#[verifier::external_type_specification]
#[verifier::external_body]
pub struct ExUrl(url::Url);

/// `bytes::Bytes`: a shared buffer, carried through.
#[verifier::external_type_specification]
#[verifier::external_body]
pub struct ExBytes(bytes::Bytes);

/// `tracing::Span`: a handle on a span, carried through.
#[verifier::external_type_specification]
#[verifier::external_body]
pub struct ExSpan(tracing::Span);

/// The bytes that a buffer holds.
pub uninterp spec fn buffer_content(b: bytes::Bytes) -> Seq<u8>;

/// `bytes::Bytes::len`. Claims that it is the number of bytes that the buffer holds.
pub assume_specification[ bytes::Bytes::len ](b: &bytes::Bytes) -> (r: usize)
    ensures
        r == buffer_content(*b).len(),
;

/// `<url::Url as Clone>::clone`, which is derived: a copy of every field. Claims that the copy is
/// the same URL.
pub assume_specification[ <url::Url as Clone>::clone ](u: &url::Url) -> (r: url::Url)
    ensures
        r == *u,
;

// ---------------------------------------------------------------------------
// Identifiers
// ---------------------------------------------------------------------------
/// The hexadecimal digit `d`, in lower case.
pub open spec fn hex_char(d: nat) -> char {
    if d < 10 {
        ('0' as u32 + d) as char
    } else {
        ('a' as u32 + d - 10) as char
    }
}

/// The `i`th of the 32 hexadecimal digits of `id`, the most significant one first.
pub open spec fn hex_digit(id: u128, i: int) -> nat {
    (id as nat / pow(16, (31 - i) as nat) as nat) % 16
}

/// How many of the dashes of a hyphenated identifier stand before position `i`.
pub open spec fn dashes_before(i: int) -> int {
    if i <= 8 {
        0
    } else if i <= 13 {
        1
    } else if i <= 18 {
        2
    } else if i <= 23 {
        3
    } else {
        4
    }
}

/// `id` as text: 32 hexadecimal digits, with dashes after the first eight, and after each of the
/// next three groups of four.
pub open spec fn hyphenated(id: u128) -> Seq<char> {
    Seq::new(
        36,
        |i: int|
            if i == 8 || i == 13 || i == 18 || i == 23 {
                '-'
            } else {
                hex_char(hex_digit(id, i - dashes_before(i)))
            },
    )
}

/// What `uuid::Uuid::parse_str` makes of a text.
pub uninterp spec fn parsed_uuid(text: Seq<char>) -> Option<u128>;

/// `uuid::Uuid::new_v4`, as a number. Claims the version and the variant of a random identifier,
/// which are bits 76 to 79 and bits 62 and 63. The other bits are random, and nothing is claimed of
/// them. It takes a system that has random numbers.
#[verifier::external_body]
pub(crate) fn new_random_uuid() -> (r: u128)
    ensures
        (r / 0x1000_0000_0000_0000_0000u128) % 16 == 4,
        (r / 0x4000_0000_0000_0000u128) % 4 == 2,
{
    uuid::Uuid::new_v4().as_u128()
}

/// `uuid::Uuid::parse_str`, which `FromStr` calls as well, from text to number. Claims nothing of
/// the outcome but that the text decides it; the reason of a failure is dropped.
#[verifier::external_body]
pub(crate) fn parse_uuid(text: &str) -> (r: Option<u128>)
    ensures
        r == parsed_uuid(text@),
{
    match uuid::Uuid::parse_str(text) {
        Ok(id) => Some(id.as_u128()),
        Err(_) => None,
    }
}

/// `<uuid::Uuid as Display>::fmt`, which writes the hyphenated form in lower case. Claims that form,
/// and that `uuid::Uuid::parse_str` reads it back.
#[verifier::external_body]
pub(crate) fn uuid_text(id: u128) -> (r: String)
    ensures
        r@ == hyphenated(id),
        parsed_uuid(r@) == Some(id),
{
    uuid::Uuid::from_u128(id).to_string()
}

// ---------------------------------------------------------------------------
// Texts for debugging
// ---------------------------------------------------------------------------
/// What `<str as Debug>::fmt` writes.
pub uninterp spec fn quoted(text: Seq<char>) -> Seq<char>;

/// `<str as Debug>::fmt`. Claims nothing of what it writes but that the text decides it.
#[verifier::external_body]
pub(crate) fn quote(text: &str) -> (r: String)
    ensures
        r@ == quoted(text@),
{
    format!("{text:?}")
}

/// What `<std::time::Duration as Debug>::fmt` writes for a duration of `secs` seconds and `nanos`
/// nanoseconds.
pub uninterp spec fn duration_text(secs: u64, nanos: u32) -> Seq<char>;

/// `<std::time::Duration as Debug>::fmt`. Claims nothing of what it writes but that the duration
/// decides it.
#[verifier::external_body]
pub(crate) fn format_duration(secs: u64, nanos: u32) -> (r: String)
    requires
        nanos < 1_000_000_000,
    ensures
        r@ == duration_text(secs, nanos),
{
    format!("{:?}", std::time::Duration::new(secs, nanos))
}

} // verus!
