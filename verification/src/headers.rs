//! Header values, which arrive as raw bytes.

use vstd::prelude::*;
use vstd::utf8::{decode_utf8, valid_utf8};

use crate::text::owned_said;

verus! {

/// A header reads as text where every byte is a visible ASCII character, a space or a tab.
pub open spec fn is_header_text(value: Seq<u8>) -> bool {
    forall|i: int| 0 <= i < value.len() ==> 32 <= #[trigger] value[i] < 127 || value[i] == 9
}

/// Whether a header reads as text.
pub fn reads_as_text(value: &[u8]) -> (text: bool)
    ensures
        text == is_header_text(value@),
{
    let mut i: usize = 0;
    while i < value.len()
        invariant
            i <= value.len(),
            forall|k: int| 0 <= k < i ==> 32 <= #[trigger] value@[k] < 127 || value@[k] == 9,
        decreases value.len() - i,
    {
        if !(32 <= value[i] && value[i] < 127) && value[i] != 9 {
            assert(!(32 <= value@[i as int] < 127 || value@[i as int] == 9));
            return false;
        }
        i += 1;
    }
    true
}

/// Calls `String::from_utf8`, which gives the text of well-formed UTF-8 and refuses all else.
#[verifier::external_body]
pub(crate) fn text_from_utf8(bytes: Vec<u8>) -> (text: Option<String>)
    ensures
        text is Some <==> valid_utf8(bytes@),
        text is Some ==> text->Some_0@ == decode_utf8(bytes@),
{
    String::from_utf8(bytes).ok()
}

/// The text of a header, where there is one and it reads as text.
pub open spec fn header_said(value: Option<Vec<u8>>) -> Option<Seq<char>> {
    match value {
        Some(value) => if is_header_text(value@) {
            Some(decode_utf8(value@))
        } else {
            None
        },
        None => None,
    }
}

proof fn lemma_header_text_is_utf8(value: Seq<u8>)
    requires
        is_header_text(value),
    ensures
        valid_utf8(value),
{
    assert(value.subrange(0, value.len() as int) =~= value);
    assert forall|i: int| 0 <= i < value.len() implies #[trigger]
        vstd::utf8::is_leading_byte_width_1(value[i]) by {}
    assert(vstd::utf8::partial_valid_utf8(value, 0));
    vstd::utf8::partial_valid_utf8_extend_ascii_block(value, 0, value.len() as int);
}

/// The text of a header, where there is one and it reads as text.
pub fn header_text(value: &Option<Vec<u8>>) -> (text: Option<String>)
    ensures
        owned_said(text) == header_said(*value),
{
    match value {
        Some(value) => {
            if reads_as_text(value.as_slice()) {
                proof {
                    lemma_header_text_is_utf8(value@);
                }
                text_from_utf8(value.clone())
            } else {
                None
            }
        },
        None => None,
    }
}

/// A header reads as text exactly where each of its bytes is a tab or from the space to the
/// tilde, and then it reads byte by byte; one that does not, or is not there, says nothing.
pub proof fn law_a_header_reads_byte_by_byte(
    bytes: &[u8],
    value: Vec<u8>,
    reads: bool,
    text: Option<String>,
    missing: Option<String>,
)
    requires
        bytes@ == value@,
        call_ensures(reads_as_text, (bytes,), reads),
        call_ensures(header_text, (&Some(value),), text),
        call_ensures(header_text, (&None::<Vec<u8>>,), missing),
    ensures
        reads <==> forall|i: int|
            0 <= i < value.len() ==> #[trigger] value[i] == 9 || ' ' as int <= value[i] as int
                <= '~' as int,
        text is Some <==> reads,
        text matches Some(text) ==> text@.len() == value.len() && forall|i: int|
            0 <= i < value.len() ==> #[trigger] text@[i] as int == value[i] as int,
        missing is None,
{
    if reads {
        assert forall|i: int| 0 <= i < value.len() implies #[trigger] value[i] == 9 || ' ' as int
            <= value[i] as int <= '~' as int by {
            assert(32 <= value@[i] < 127 || value@[i] == 9);
        }
        let chars = value@.map_values(|byte: u8| byte as char);
        assert(vstd::utf8::is_ascii_chars(chars)) by {
            assert forall|i: int| 0 <= i < chars.len() implies '\0' <= #[trigger] chars[i]
                <= '\u{7f}' by {
                assert(32 <= value@[i] < 127 || value@[i] == 9);
            }
        }
        vstd::utf8::is_ascii_chars_encode_utf8(chars);
        assert(vstd::utf8::encode_utf8(chars) =~= value@) by {
            assert forall|i: int| 0 <= i < value@.len() implies vstd::utf8::encode_utf8(chars)[i]
                == #[trigger] value@[i] by {
                assert(32 <= value@[i] < 127 || value@[i] == 9);
                assert(chars[i] as u8 == vstd::utf8::encode_utf8(chars)[i]);
            }
        }
        vstd::utf8::encode_utf8_decode_utf8(chars);
        assert(text->0@ == chars);
        assert forall|i: int| 0 <= i < value.len() implies #[trigger] text->0@[i] as int
            == value[i] as int by {
            assert(32 <= value@[i] < 127 || value@[i] == 9);
        }
    }
    if forall|i: int|
        0 <= i < value.len() ==> #[trigger] value[i] == 9 || ' ' as int <= value[i] as int
            <= '~' as int {
        assert forall|i: int| 0 <= i < bytes@.len() implies 32 <= #[trigger] bytes@[i] < 127
            || bytes@[i] == 9 by {
            assert(value[i] == 9 || ' ' as int <= value[i] as int <= '~' as int);
        }
    }
}

} // verus!
