//! The boundary to the outside crates and to the parts of std that carry no
//! specification: base64 encoding, the random source, and the clock. Each
//! item's contract states only what the called code's source or documentation
//! plainly shows.

use vstd::prelude::*;
use base64::Engine;

verus! {

/// The standard base64 encoding (with padding) of a byte sequence. The exact
/// character sequence is a pure function of the bytes; it is named rather
/// than spelled out, and only the facts below are assumed of it.
pub uninterp spec fn base64_std_of(bytes: Seq<u8>) -> Seq<char>;

/// A character of the 64-character base64 alphabet (padding excluded).
pub open spec fn is_base64_data_char(c: char) -> bool {
    ('A' <= c && c <= 'Z') || ('a' <= c && c <= 'z') || ('0' <= c && c <= '9') || c == '+' || c
        == '/'
}

/// Base64 output with its trailing `=` padding removed.
pub open spec fn strip_padding(s: Seq<char>) -> Seq<char>
    decreases s.len(),
{
    if s.len() > 0 && s.last() == '=' {
        strip_padding(s.drop_last())
    } else {
        s
    }
}

/// Relies on base64's `Engine::encode` with the standard padded engine:
/// RFC 4648 base64, which for 16 input bytes yields 22 characters drawn from
/// the 64-character alphabet followed by two `=` padding characters.
#[verifier::external_body]
pub(crate) fn base64_encode_16(bytes: &[u8; 16]) -> (r: String)
    ensures
        r@ == base64_std_of(bytes@),
        r@.len() == 24,
        forall|i: int| 0 <= i < 22 ==> is_base64_data_char(#[trigger] r@[i]),
        r@[22] == '=',
        r@[23] == '=',
{
    base64::engine::general_purpose::STANDARD.encode(bytes.as_slice())
}

/// Relies on uuid's `Uuid::new_v4`: a freshly drawn random 128-bit
/// identifier, handed out as its 16 bytes. Nothing is assumed of the value.
#[verifier::external_body]
pub(crate) fn fresh_uuid_bytes() -> [u8; 16] {
    *uuid::Uuid::new_v4().as_bytes()
}

/// Relies on rand's `random`: one uniformly drawn byte. Nothing is assumed of
/// the value.
#[verifier::external_body]
pub(crate) fn random_byte() -> u8 {
    rand::random::<u8>()
}

#[verifier::external_type_specification]
#[verifier::external_body]
pub struct ExSystemTime(std::time::SystemTime);

#[verifier::external_type_specification]
#[verifier::external_body]
pub struct ExSystemTimeError(std::time::SystemTimeError);

/// Relies on std's `SystemTime::UNIX_EPOCH`: the fixed epoch that timestamps
/// are measured from.
#[verifier::external_body]
pub(crate) fn unix_epoch() -> std::time::SystemTime {
    std::time::SystemTime::UNIX_EPOCH
}

/// Relies on std's `SystemTime::now`: the clock's current reading. Nothing
/// can be assumed of the value.
pub assume_specification[ std::time::SystemTime::now ]() -> std::time::SystemTime;

/// Relies on std's `SystemTime::duration_since`: the elapsed time between two
/// readings, or an error when the clock ran backwards. Nothing is assumed of
/// the value.
pub assume_specification[ std::time::SystemTime::duration_since ](
    s: &std::time::SystemTime,
    earlier: std::time::SystemTime,
) -> Result<core::time::Duration, std::time::SystemTimeError>;

/// Relies on std's `Duration::as_nanos`: the duration expressed in whole
/// nanoseconds. Nothing is assumed of the value.
pub assume_specification[ core::time::Duration::as_nanos ](d: &core::time::Duration) -> u128;

} // verus!
