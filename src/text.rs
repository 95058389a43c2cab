//! Bytes as text: UTF-8 decoding and the visible-ASCII rule for header values.
use vstd::prelude::*;
use vstd::utf8::{decode_utf8, valid_utf8, leading_bits_width_1};

verus! {

/// Relies on `std::str::from_utf8`: it succeeds exactly when the bytes are
/// well-formed UTF-8, and then yields the characters that they encode.
#[verifier::external_body]
fn utf8_text(bytes: &[u8]) -> (r: Option<String>)
    ensures
        r.is_some() <==> valid_utf8(bytes@),
        r matches Some(s) ==> s@ == decode_utf8(bytes@),
{
    match std::str::from_utf8(bytes) {
        Ok(s) => Some(String::from(s)),
        Err(_) => None,
    }
}

/// The body bytes read as text, when they are well-formed UTF-8.
pub fn decode_text(bytes: &Vec<u8>) -> (r: Option<String>)
    ensures
        r.is_some() <==> valid_utf8(bytes@),
        r matches Some(s) ==> s@ == decode_utf8(bytes@),
        bytes@.len() == 0 ==> (r matches Some(s) && s@.len() == 0),
{
    utf8_text(bytes.as_slice())
}

/// A byte that a header value may hold and still read as text:
/// a visible ASCII character, a space, or a horizontal tab.
pub open spec fn is_visible_ascii(b: u8) -> bool {
    (32 <= b && b < 127) || b == 9
}

/// Every byte of the value is visible ASCII.
pub open spec fn is_text_value(v: Seq<u8>) -> bool {
    forall|i: int| 0 <= i < v.len() ==> is_visible_ascii(#[trigger] v[i])
}

/// ASCII bytes read one character each.
pub open spec fn ascii_chars(v: Seq<u8>) -> Seq<char> {
    v.map_values(|b: u8| b as char)
}

/// A sequence of ASCII bytes is well-formed UTF-8 and encodes one character per byte.
pub proof fn lemma_ascii_utf8(v: Seq<u8>)
    requires
        forall|i: int| 0 <= i < v.len() ==> #[trigger] v[i] < 128,
    ensures
        valid_utf8(v),
        decode_utf8(v) == ascii_chars(v),
    decreases v.len(),
{
    if v.len() > 0 {
        let b = v[0];
        assert(leading_bits_width_1(b) == b as u32) by (bit_vector)
            requires
                b < 128u8,
        ;
        let rest = v.subrange(1, v.len() as int);
        lemma_ascii_utf8(rest);
        assert(ascii_chars(v) =~= seq![b as char] + ascii_chars(rest));
    }
}

/// The bytes as text, when every one of them is visible ASCII.
pub fn visible_text(value: &Vec<u8>) -> (r: Option<String>)
    ensures
        r.is_some() <==> is_text_value(value@),
        r matches Some(s) ==> s@ == ascii_chars(value@),
{
    let n = value.len();
    let mut i: usize = 0;
    while i < n
        invariant
            n == value@.len(),
            i <= n,
            forall|j: int| 0 <= j < i ==> is_visible_ascii(#[trigger] value@[j]),
        decreases n - i,
    {
        let b = value[i];
        if !((32 <= b && b < 127) || b == 9) {
            return None;
        }
        i = i + 1;
    }
    proof {
        lemma_ascii_utf8(value@);
    }
    utf8_text(value.as_slice())
}

} // verus!
