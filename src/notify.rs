//! The outbound push request: its path, percent-encoded, and fixed query.
use vstd::prelude::*;
use vstd::utf8::encode_utf8;

verus! {

/// Query that selects the alert group, critical level and full volume.
pub const PUSH_QUERY: &'static str = "?group=地震预警&level=critical&volume=5";

/// Bytes left as they are by percent-encoding: ASCII letters, digits and `-._~`.
pub open spec fn unreserved(b: u8) -> bool {
    (48 <= b <= 57) || (65 <= b <= 90) || (97 <= b <= 122) || b == 45 || b == 46 || b == 95 || b == 126
}

/// Upper-case hexadecimal digit of `d` (below 16).
pub open spec fn hex_digit(d: u8) -> char {
    if d < 10 {
        ((48 + d) as u8) as char
    } else {
        ((55 + d) as u8) as char
    }
}

/// Each byte kept when unreserved, else written `%XY` in upper-case hexadecimal.
pub open spec fn percent_encoded(b: Seq<u8>) -> Seq<char>
    decreases b.len(),
{
    if b.len() == 0 {
        seq![]
    } else {
        let head = if unreserved(b[0]) {
            seq![b[0] as char]
        } else {
            seq!['%', hex_digit(b[0] / 16), hex_digit(b[0] % 16)]
        };
        head + percent_encoded(b.drop_first())
    }
}

/// Relies on `urlencoding::encode`, which percent-encodes every byte of the
/// UTF-8 text except ASCII alphanumerics and `-`, `_`, `.`, `~`.
#[verifier::external_body]
fn url_encode(s: &str) -> (r: String)
    ensures
        r@ == percent_encoded(encode_utf8(s@)),
{
    urlencoding::encode(s).into_owned()
}

pub open spec fn push_url_of(
    base: Seq<char>,
    bark_id: Seq<char>,
    title: Seq<char>,
    subtitle: Seq<char>,
    body: Seq<char>,
) -> Seq<char> {
    base + "/"@ + percent_encoded(encode_utf8(bark_id)) + "/"@ + percent_encoded(encode_utf8(title)) + "/"@
        + percent_encoded(encode_utf8(subtitle)) + "/"@ + percent_encoded(encode_utf8(body)) + PUSH_QUERY@
}

/// The address of one push: `{base}/{target}/{title}/{subtitle}/{body}` with
/// the four path parts percent-encoded, then the fixed query.
pub fn push_url(base: &str, bark_id: &str, title: &str, subtitle: &str, body: &str) -> (r: String)
    ensures
        r@ == push_url_of(base@, bark_id@, title@, subtitle@, body@),
{
    let mut url = String::from_str(base);
    url.append("/");
    url.append(url_encode(bark_id).as_str());
    url.append("/");
    url.append(url_encode(title).as_str());
    url.append("/");
    url.append(url_encode(subtitle).as_str());
    url.append("/");
    url.append(url_encode(body).as_str());
    url.append(PUSH_QUERY);
    url
}

} // verus!
