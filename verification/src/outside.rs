//! The functions of other crates and of the standard library that this crate calls, with what
//! it relies on of each. None of these contracts is proved.

use serde_json::Error as JsonError;
use vstd::prelude::*;
use vstd::utf8::*;

verus! {

/// An error of reading from or writing to a connection. Only handed on.
#[verifier::external_type_specification]
#[verifier::external_body]
pub struct ExIoError(std::io::Error);

/// Why some bytes are not UTF-8. Only handed on.
#[verifier::external_type_specification]
#[verifier::external_body]
pub struct ExUtf8Error(std::str::Utf8Error);

/// Why a text is not the JSON that was asked for. Only handed on.
#[verifier::external_type_specification]
#[verifier::external_body]
pub struct ExJsonError(JsonError);

/// A DNS name in the form that a TLS session takes. Only handed on.
#[verifier::external_type_specification]
#[verifier::external_body]
pub struct ExDnsNameRef<'a>(webpki::DNSNameRef<'a>);

/// Says that a text is not a DNS name. Only handed on.
#[verifier::external_type_specification]
#[verifier::external_body]
pub struct ExInvalidDnsName(webpki::InvalidDNSNameError);

/// The description that `std::str::from_utf8` gives of bytes that are not UTF-8.
pub uninterp spec fn utf8_error(bytes: Seq<u8>) -> std::str::Utf8Error;

/// `std::str::from_utf8` gives the text that the bytes encode if they are UTF-8, and otherwise
/// a description of what is wrong with them, which depends on the bytes alone.
pub assume_specification<'a>[ std::str::from_utf8 ](v: &'a [u8]) -> (text: Result<
    &'a str,
    std::str::Utf8Error,
>)
    ensures
        match text {
            Ok(text) => valid_utf8(v@) && text@ == decode_utf8(v@),
            Err(err) => !valid_utf8(v@) && err == utf8_error(v@),
        },
;

/// The text that `str::to_lowercase` makes of a text that is not all ASCII.
pub uninterp spec fn unicode_lowercase(text: Seq<char>) -> Seq<char>;

/// The lower case of an ASCII character.
pub open spec fn ascii_lowercase(c: char) -> char {
    if 'A' <= c <= 'Z' {
        (c as u32 + 32) as char
    } else {
        c
    }
}

/// The lower case of a text.
pub open spec fn lowercase(text: Seq<char>) -> Seq<char> {
    if is_ascii_chars(text) {
        text.map_values(|c: char| ascii_lowercase(c))
    } else {
        unicode_lowercase(text)
    }
}

/// `str::to_lowercase` maps a text by the Unicode rules for lower case, which depend on the
/// text alone. Of ASCII text they change the letters `A` to `Z`, each into its lower case.
#[verifier::external_body]
pub(crate) fn to_lowercase(text: &str) -> (lower: String)
    ensures
        is_ascii_chars(text@) ==> lower@ == text@.map_values(|c: char| ascii_lowercase(c)),
        !is_ascii_chars(text@) ==> lower@ == unicode_lowercase(text@),
{
    text.to_lowercase()
}

/// `String::push` puts a character at the end of a text.
#[verifier::external_body]
pub(crate) fn push(text: &mut String, c: char)
    ensures
        final(text)@ == old(text)@.push(c),
{
    text.push(c)
}

/// `serde_json::from_str` reads a value of the type `T` from JSON. What it gives depends on how
/// `T` implements `Deserialize`, and nothing is claimed of it: that a value came of this call on
/// some text is all that can be said of the value.
#[verifier::external_body]
pub fn from_json<'a, T>(text: &'a str) -> (value: Result<T, JsonError>) where
    T: serde::de::Deserialize<'a>,
{
    serde_json::from_str(text)
}

/// What `webpki::DNSNameRef::try_from_ascii_str` makes of `name`.
pub uninterp spec fn dns_name_ref(name: Seq<char>) -> Result<
    webpki::DNSNameRef<'static>,
    webpki::InvalidDNSNameError,
>;

/// `webpki::DNSNameRef::try_from_ascii_str` checks the syntax of a DNS name and hands it back as
/// one if it is right. Its answer depends on the name alone. An empty name and one of more than
/// 253 characters are refused.
#[verifier::external_body]
pub(crate) fn try_dns_name<'a>(name: &'a str) -> (checked: Result<
    webpki::DNSNameRef<'a>,
    webpki::InvalidDNSNameError,
>)
    ensures
        checked == dns_name_ref(name@),
        checked is Ok ==> 0 < name@.len() <= 253,
{
    webpki::DNSNameRef::try_from_ascii_str(name)
}

} // verus!
