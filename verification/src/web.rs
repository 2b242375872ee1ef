//! Addresses for the browser.

use crate::text::owned;
use vstd::prelude::*;
use vstd::utf8::*;

verus! {

/// A byte that stands for itself in an address.
pub open spec fn unreserved(b: u8) -> bool {
    ||| 48 <= b <= 57
    ||| 65 <= b <= 90
    ||| 97 <= b <= 122
    ||| b == 45 || b == 46 || b == 95 || b == 126
}

pub open spec fn hex_digit(d: int) -> char {
    if d < 10 {
        (48 + d) as char
    } else {
        (55 + d) as char
    }
}

/// A byte in an address.
pub open spec fn escaped(b: u8) -> Seq<char> {
    if unreserved(b) {
        seq![b as char]
    } else {
        seq!['%', hex_digit(b as int / 16), hex_digit(b as int % 16)]
    }
}

/// Bytes in an address.
pub open spec fn percent_encoded(bytes: Seq<u8>) -> Seq<char>
    decreases bytes.len(),
{
    if bytes.len() == 0 {
        Seq::empty()
    } else {
        percent_encoded(bytes.drop_last()) + escaped(bytes.last())
    }
}

/// Text as it is written in an address.
///
/// Trusted: `urlencoding::encode` writes each byte of the UTF-8 text as it is
/// where it is a letter, a digit or one of `-`, `.`, `_` and `~`, and else as a
/// percent sign and two upper-case hexadecimal digits.
#[verifier::external_body]
fn url_encode(data: &str) -> (text: String)
    ensures
        text@ == percent_encoded(encode_utf8(data@)),
{
    urlencoding::encode(data).into_owned()
}

/// The address of a search for a text.
pub open spec fn search_address(query: Seq<char>) -> Seq<char> {
    "https://www.bing.com/search?q="@ + percent_encoded(encode_utf8(query))
}

pub fn bing_search_url(query: &str) -> (url: String)
    ensures
        url@ == search_address(query@),
{
    let mut url = owned("https://www.bing.com/search?q=");
    let encoded = url_encode(query);
    url.append(encoded.as_str());
    url
}

} // verus!
