use vstd::prelude::*;
use vstd::string::StringExecFns;

verus! {

/// What `std::str::from_utf8` makes of a byte string: its text, or `None`
/// when the bytes are not valid UTF-8.
pub uninterp spec fn utf8_text(bytes: Seq<u8>) -> Option<Seq<char>>;

/// Relies on `std::str::from_utf8`: the bytes read as UTF-8 text, or nothing
/// when they are not valid UTF-8; which of the two depends on the bytes alone.
#[verifier::external_body]
fn decode_utf8(bytes: &[u8]) -> (r: Option<&str>)
    ensures
        r is Some <==> utf8_text(bytes@) is Some,
        r matches Some(s) ==> utf8_text(bytes@) == Some(s@),
{
    std::str::from_utf8(bytes).ok()
}

/// `"Hello "` followed by the recipient's name, or `"Hello there"` when there
/// is no name to use.
pub open spec fn greeting_text(name: Option<Seq<char>>) -> Seq<char> {
    match name {
        Some(n) => "Hello "@ + n,
        None => "Hello there"@,
    }
}

/// The name that raw input bytes give: none for absent input or for bytes
/// that are not valid UTF-8.
pub open spec fn recipient(input: Option<Seq<u8>>) -> Option<Seq<char>> {
    match input {
        Some(b) => utf8_text(b),
        None => None,
    }
}

/// The greeting for an already decoded name.
pub fn greeting(name: Option<&str>) -> (r: String)
    ensures
        r@ == greeting_text(
            match name {
                Some(n) => Some(n@),
                None => None,
            },
        ),
{
    proof {
        reveal_strlit("Hello ");
        reveal_strlit("Hello there");
    }
    match name {
        Some(n) => String::from_str("Hello ").concat(n),
        None => String::from_str("Hello there"),
    }
}

/// The greeting for raw input bytes, which may be absent or not valid UTF-8:
/// in both cases the recipient falls back to "there".
pub fn greet(input: Option<&[u8]>) -> (r: String)
    ensures
        r@ == greeting_text(
            recipient(
                match input {
                    Some(b) => Some(b@),
                    None => None,
                },
            ),
        ),
{
    match input {
        Some(b) => greeting(decode_utf8(b)),
        None => greeting(None),
    }
}

} // verus!
