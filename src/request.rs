//! Checks on what the request layer receives.
use vstd::prelude::*;
use crate::coords::{valid_coordinates, validate_coordinates};
use crate::intensity::{validate_intensity, MAX_INTENSITY};
use crate::models::SubscribeRequest;
use vstd::utf8::encode_utf8;

verus! {

/// Longest push target accepted on subscription, in bytes.
pub const MAX_SUBSCRIBE_ID_BYTES: usize = 64;

/// Longest push target accepted on unsubscription, in bytes.
pub const MAX_UNSUBSCRIBE_ID_BYTES: usize = 256;

/// What `char::is_alphanumeric` answers for `c`.
pub uninterp spec fn alphanumeric(c: char) -> bool;

/// Whether `c` has Unicode's White_Space property, the characters that
/// `char::is_whitespace` accepts and `str::trim` removes.
pub open spec fn white_space(c: char) -> bool {
    let u = c as u32;
    (0x9 <= u <= 0xD) || u == 0x20 || u == 0x85 || u == 0xA0 || u == 0x1680 || (0x2000 <= u <= 0x200A)
        || u == 0x2028 || u == 0x2029 || u == 0x202F || u == 0x205F || u == 0x3000
}

/// Relies on `char::is_alphanumeric`: alphabetic or numeric in Unicode's sense.
#[verifier::external_body]
fn is_alphanumeric(c: char) -> (r: bool)
    ensures
        r == alphanumeric(c),
{
    c.is_alphanumeric()
}

fn is_whitespace(c: char) -> (r: bool)
    ensures
        r == white_space(c),
{
    let u = c as u32;
    (0x9 <= u && u <= 0xD) || u == 0x20 || u == 0x85 || u == 0xA0 || u == 0x1680 || (0x2000 <= u && u <= 0x200A)
        || u == 0x2028 || u == 0x2029 || u == 0x202F || u == 0x205F || u == 0x3000
}

/// Why a push target was refused.
#[derive(Debug, Clone, Copy, PartialEq, Eq, Structural)]
pub enum BarkIdError {
    /// Nothing but white space.
    Empty,
    /// Longer than allowed.
    TooLong,
    /// Holds a character outside the allowed set.
    InvalidCharacters,
}

/// Why a subscription request was refused.
#[derive(Debug, Clone, Copy, PartialEq, Eq, Structural)]
pub enum RequestError {
    BarkId(BarkIdError),
    InvalidCoordinates,
    InvalidIntensity,
}

/// Whether `s` is empty once white space is trimmed from both ends.
pub open spec fn blank(s: Seq<char>) -> bool {
    forall|i: int| 0 <= i < s.len() ==> white_space(#[trigger] s[i])
}

pub open spec fn subscribe_char_ok(c: char) -> bool {
    alphanumeric(c)
}

pub open spec fn unsubscribe_char_ok(c: char) -> bool {
    alphanumeric(c) || c == '_' || c == '-'
}

/// The verdict on a push target: blank, then longer than `max_bytes`
/// bytes, then a character outside the set, else accepted.
pub open spec fn id_verdict(s: Seq<char>, n_bytes: nat, max_bytes: nat, extended: bool) -> Result<(), BarkIdError> {
    if blank(s) {
        Err(BarkIdError::Empty)
    } else if n_bytes > max_bytes {
        Err(BarkIdError::TooLong)
    } else if !(forall|i: int| 0 <= i < s.len() ==> if extended {
        unsubscribe_char_ok(#[trigger] s[i])
    } else {
        subscribe_char_ok(s[i])
    }) {
        Err(BarkIdError::InvalidCharacters)
    } else {
        Ok(())
    }
}

fn is_blank(s: &str) -> (r: bool)
    ensures
        r == blank(s@),
{
    let n = s.unicode_len();
    let mut i: usize = 0;
    while i < n
        invariant
            n == s@.len(),
            i <= n,
            forall|k: int| 0 <= k < i ==> white_space(#[trigger] s@[k]),
        decreases n - i,
    {
        if !is_whitespace(s.get_char(i)) {
            return false;
        }
        i = i + 1;
    }
    true
}

fn all_chars_ok(s: &str, extended: bool) -> (r: bool)
    ensures
        r == forall|i: int| 0 <= i < s@.len() ==> if extended {
            unsubscribe_char_ok(#[trigger] s@[i])
        } else {
            subscribe_char_ok(s@[i])
        },
{
    let n = s.unicode_len();
    let mut i: usize = 0;
    while i < n
        invariant
            n == s@.len(),
            i <= n,
            forall|k: int| 0 <= k < i ==> if extended {
                unsubscribe_char_ok(#[trigger] s@[k])
            } else {
                subscribe_char_ok(s@[k])
            },
        decreases n - i,
    {
        let c = s.get_char(i);
        let ok = if extended {
            is_alphanumeric(c) || c == '_' || c == '-'
        } else {
            is_alphanumeric(c)
        };
        if !ok {
            return false;
        }
        i = i + 1;
    }
    true
}

/// Checks a push target given on subscription: not blank, at most 64 bytes,
/// letters and digits only.
pub fn check_subscribe_id(bark_id: &str) -> (r: Result<(), BarkIdError>)
    ensures
        r == id_verdict(bark_id@, encode_utf8(bark_id@).len(), MAX_SUBSCRIBE_ID_BYTES as nat, false),
{
    let n_bytes = bark_id.as_bytes().len();
    if is_blank(bark_id) {
        Err(BarkIdError::Empty)
    } else if n_bytes > MAX_SUBSCRIBE_ID_BYTES {
        Err(BarkIdError::TooLong)
    } else if !all_chars_ok(bark_id, false) {
        Err(BarkIdError::InvalidCharacters)
    } else {
        Ok(())
    }
}

/// Checks a push target given on unsubscription: not blank, at most 256
/// bytes, letters, digits, `_` and `-` only.
pub fn check_unsubscribe_id(bark_id: &str) -> (r: Result<(), BarkIdError>)
    ensures
        r == id_verdict(bark_id@, encode_utf8(bark_id@).len(), MAX_UNSUBSCRIBE_ID_BYTES as nat, true),
{
    let n_bytes = bark_id.as_bytes().len();
    if is_blank(bark_id) {
        Err(BarkIdError::Empty)
    } else if n_bytes > MAX_UNSUBSCRIBE_ID_BYTES {
        Err(BarkIdError::TooLong)
    } else if !all_chars_ok(bark_id, true) {
        Err(BarkIdError::InvalidCharacters)
    } else {
        Ok(())
    }
}

/// Checks a subscription request: its push target, then its coordinates,
/// then its threshold.
pub fn validate_subscribe_request(req: &SubscribeRequest) -> (r: Result<(), RequestError>)
    ensures
        r == match id_verdict(req.bark_id@, encode_utf8(req.bark_id@).len(), MAX_SUBSCRIBE_ID_BYTES as nat, false) {
            Err(e) => Err(RequestError::BarkId(e)),
            Ok(()) => if !valid_coordinates(req.latitude as int, req.longitude as int) {
                Err(RequestError::InvalidCoordinates)
            } else if req.min_intensity > MAX_INTENSITY {
                Err(RequestError::InvalidIntensity)
            } else {
                Ok(())
            },
        },
{
    match check_subscribe_id(req.bark_id.as_str()) {
        Err(e) => Err(RequestError::BarkId(e)),
        Ok(()) => if !validate_coordinates(req.latitude, req.longitude) {
            Err(RequestError::InvalidCoordinates)
        } else if !validate_intensity(req.min_intensity) {
            Err(RequestError::InvalidIntensity)
        } else {
            Ok(())
        },
    }
}

} // verus!
