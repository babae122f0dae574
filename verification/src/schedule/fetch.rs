use vstd::prelude::*;
use vstd::string::StringSliceAdditionalSpecFns;

verus! {

/// An ASCII letter or digit.
pub open spec fn is_ascii_alphanumeric(b: u8) -> bool {
    ||| 0x30 <= b <= 0x39
    ||| 0x41 <= b <= 0x5A
    ||| 0x61 <= b <= 0x7A
}

/// The upper-case hexadecimal digit of a value below 16.
pub open spec fn hex_digit(n: int) -> char {
    if n < 10 {
        (0x30 + n) as u8 as char
    } else {
        (0x41 + n - 10) as u8 as char
    }
}

/// A byte as a request body carries it: an ASCII letter or digit as
/// itself, every other byte as a percent sign and its two hexadecimal
/// digits.
pub open spec fn encoded_byte(b: u8) -> Seq<char> {
    if is_ascii_alphanumeric(b) {
        seq![b as char]
    } else {
        seq!['%', hex_digit(b as int / 16), hex_digit(b as int % 16)]
    }
}

/// The bytes of a text as a request body carries them, in order.
pub open spec fn percent_encoded(bytes: Seq<u8>) -> Seq<char>
    decreases bytes.len(),
{
    if bytes.len() == 0 {
        Seq::empty()
    } else {
        percent_encoded(bytes.drop_last()) + encoded_byte(bytes.last())
    }
}

/// `percent_encode` of the crate percent-encoding, with its set
/// `NON_ALPHANUMERIC`, written out as a string: every byte of the UTF-8
/// form of the text that is no ASCII letter or digit becomes a percent sign
/// and two upper-case hexadecimal digits, every other byte stays.
#[verifier::external_body]
fn percent_encode_text(s: &str) -> (r: String)
    ensures
        r@ == percent_encoded(s.spec_bytes()),
{
    percent_encoding::percent_encode(s.as_bytes(), percent_encoding::NON_ALPHANUMERIC).to_string()
}

/// The body of the request for the timetable of a route: the field `no`
/// with the route's identifier, percent-encoded.
pub fn detail_request_body(route_id: &str) -> (body: String)
    ensures
        body@ == "no="@ + percent_encoded(route_id.spec_bytes()),
{
    let mut body = String::from_str("no=");
    let encoded = percent_encode_text(route_id);
    body.append(encoded.as_str());
    body
}

} // verus!
