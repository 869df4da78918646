//! What the library takes from outside: JSON texts, hashes, random identifiers,
//! the clock, and the parts of the standard library that read Unicode tables.
use vstd::prelude::*;
use vstd::string::*;
use vstd::utf8::*;

use crate::numbers;
use crate::views;

verus! {

/// One character as it stands in a JSON text: the quotation mark, the backslash
/// and the control characters below the space are escaped.
pub open spec fn json_char(c: char) -> Seq<char> {
    if c == '"' || c == '\\' {
        seq!['\\', c]
    } else if c == '\u{8}' {
        seq!['\\', 'b']
    } else if c == '\u{9}' {
        seq!['\\', 't']
    } else if c == '\u{a}' {
        seq!['\\', 'n']
    } else if c == '\u{c}' {
        seq!['\\', 'f']
    } else if c == '\u{d}' {
        seq!['\\', 'r']
    } else if c <= '\u{1f}' {
        seq!['\\', 'u', '0', '0', numbers::hex_char(c as int / 16), numbers::hex_char(c as int % 16)]
    } else {
        seq![c]
    }
}

/// The characters of a text as they stand in a JSON text.
pub open spec fn json_chars(text: Seq<char>) -> Seq<char>
    decreases text.len(),
{
    if text.len() == 0 {
        Seq::empty()
    } else {
        json_char(text[0]) + json_chars(text.skip(1))
    }
}

/// A text as a JSON string: escaped, between quotation marks.
pub open spec fn json_string(text: Seq<char>) -> Seq<char> {
    seq!['"'] + json_chars(text) + seq!['"']
}

/// Whether a text is some text as a JSON string, in the form that this library
/// writes it.
pub open spec fn is_json_string(value: Seq<char>) -> bool {
    exists|text: Seq<char>| value == #[trigger] json_string(text)
}

/// The text that a JSON string is for.
pub open spec fn json_unquoted(value: Seq<char>) -> Seq<char> {
    choose|text: Seq<char>| value == #[trigger] json_string(text)
}

/// What `serde_json::from_str` reads from a text as a string: the string, or the
/// text of the error.
pub uninterp spec fn json_text(value: Seq<char>) -> Result<Seq<char>, Seq<char>>;

/// What is read from a text that should be a JSON string: of a text in the form
/// that this library writes, the text that it is for.
pub open spec fn json_read(value: Seq<char>) -> Result<Seq<char>, Seq<char>> {
    if is_json_string(value) {
        Ok(json_unquoted(value))
    } else {
        json_text(value)
    }
}

/// The escape of one character tells the character, also with more behind it.
proof fn lemma_json_char_prefix(a: char, b: char, after_a: Seq<char>, after_b: Seq<char>)
    requires
        json_char(a) + after_a == json_char(b) + after_b,
    ensures
        a == b,
        after_a == after_b,
{
    let left = json_char(a) + after_a;
    let right = json_char(b) + after_b;
    assert(left[0] == json_char(a)[0] && right[0] == json_char(b)[0]);
    if json_char(a).len() > 1 {
        assert(left[1] == json_char(a)[1] && right[1] == json_char(b)[1]);
        if json_char(a).len() == 6 {
            assert(left[4] == json_char(a)[4] && right[4] == json_char(b)[4]);
            assert(left[5] == json_char(a)[5] && right[5] == json_char(b)[5]);
        }
    }
    assert(a == b);
    assert(after_a =~= left.skip(json_char(a).len() as int));
    assert(after_b =~= right.skip(json_char(b).len() as int));
}

proof fn lemma_json_chars_injective(left: Seq<char>, right: Seq<char>)
    requires
        json_chars(left) == json_chars(right),
    ensures
        left == right,
    decreases left.len(),
{
    if left.len() == 0 {
        if right.len() > 0 {
            assert(json_chars(right).len() > 0);
        }
        assert(left =~= right);
    } else {
        assert(json_chars(left).len() > 0);
        assert(right.len() > 0);
        lemma_json_char_prefix(
            left[0],
            right[0],
            json_chars(left.skip(1)),
            json_chars(right.skip(1)),
        );
        lemma_json_chars_injective(left.skip(1), right.skip(1));
        assert(left =~= seq![left[0]] + left.skip(1));
        assert(right =~= seq![right[0]] + right.skip(1));
    }
}

/// A text that was written as a JSON string is read back as it was.
pub proof fn law_json_round_trip(text: Seq<char>)
    ensures
        json_read(json_string(text)) == Ok::<Seq<char>, Seq<char>>(text),
{
    let value = json_string(text);
    let other = json_unquoted(value);
    assert(value == json_string(other));
    assert(json_chars(text) =~= value.subrange(1, value.len() - 1));
    assert(json_chars(other) =~= value.subrange(1, value.len() - 1));
    lemma_json_chars_injective(text, other);
}

/// `serde_json::to_string` of a string: the string between quotation marks, with
/// the quotation mark, the backslash and the control characters below the space
/// escaped. It cannot fail on a string.
#[verifier::external_body]
pub(crate) fn json_of_text(text: &str) -> (json: String)
    ensures
        json@ == json_string(text@),
{
    serde_json::to_string(text).expect("a string can be written as JSON")
}

/// `serde_json::from_str` into a string, with the text of its error. A text that
/// is some string as JSON is read as that string; what else is read, and which
/// text an error has, is left to the name.
#[verifier::external_body]
pub(crate) fn text_of_json(value: &str) -> (text: Result<String, String>)
    ensures
        views::result_view(text) == (if is_json_string(value@) {
            Ok(json_unquoted(value@))
        } else {
            json_text(value@)
        }),
{
    match serde_json::from_str::<String>(value) {
        Ok(text) => Ok(text),
        Err(error) => Err(error.to_string()),
    }
}

/// The SHA-256 hash of a sequence of bytes.
pub uninterp spec fn sha256(bytes: Seq<u8>) -> Seq<u8>;

/// `sha2::Sha256::digest`: the hash, which has 32 bytes.
#[verifier::external_body]
pub(crate) fn sha256_of(bytes: &[u8]) -> (hash: Vec<u8>)
    ensures
        hash@ == sha256(bytes@),
        hash@.len() == 32,
{
    <sha2::Sha256 as sha2::Digest>::digest(bytes).to_vec()
}

/// Whether a character is a hexadecimal digit in lower case.
pub open spec fn is_lower_hex(c: char) -> bool {
    '0' <= c <= '9' || 'a' <= c <= 'f'
}

/// Whether a text has the form of a random identifier: 32 hexadecimal digits in
/// groups of 8, 4, 4, 4 and 12, of version 4 and the RFC variant.
pub open spec fn is_random_id(text: Seq<char>) -> bool {
    &&& text.len() == 36
    &&& forall|i: int|
        0 <= i < 36 ==> if i == 8 || i == 13 || i == 18 || i == 23 {
            #[trigger] text[i] == '-'
        } else {
            is_lower_hex(text[i])
        }
    &&& text[14] == '4'
    &&& text[19] == '8' || text[19] == '9' || text[19] == 'a' || text[19] == 'b'
}

/// `uuid::Uuid::new_v4` as text: random, so only the form of the text is stated.
#[verifier::external_body]
pub(crate) fn random_id() -> (id: String)
    ensures
        is_random_id(id@),
{
    uuid::Uuid::new_v4().to_string()
}

/// A text in lower case, by the Unicode rules.
pub uninterp spec fn lowercase(text: Seq<char>) -> Seq<char>;

/// `str::to_lowercase`.
#[verifier::external_body]
pub(crate) fn lowercase_of(text: &str) -> (lower: String)
    ensures
        lower@ == lowercase(text@),
{
    text.to_lowercase()
}

/// A text as its `Debug` form shows it: quoted and escaped.
pub uninterp spec fn debug_text(text: Seq<char>) -> Seq<char>;

/// The `Debug` form of `str`.
#[verifier::external_body]
pub(crate) fn debug_of(text: &str) -> (shown: String)
    ensures
        shown@ == debug_text(text@),
{
    format!("{:?}", text)
}

/// Bytes that are not UTF-8 read as text, with a replacement character for what
/// is none.
pub uninterp spec fn lossy_text(bytes: Seq<u8>) -> Seq<char>;

/// Bytes read as text: the text that they encode in UTF-8, or what is left of it.
pub open spec fn shown_text(bytes: Seq<u8>) -> Seq<char> {
    if valid_utf8(bytes) {
        decode_utf8(bytes)
    } else {
        lossy_text(bytes)
    }
}

/// `String::from_utf8_lossy`: of bytes that are UTF-8 it gives the text that
/// they encode.
#[verifier::external_body]
pub(crate) fn lossy_text_of(bytes: &[u8]) -> (text: String)
    ensures
        text@ == (if valid_utf8(bytes@) {
            decode_utf8(bytes@)
        } else {
            lossy_text(bytes@)
        }),
{
    String::from_utf8_lossy(bytes).into_owned()
}

/// `SystemTime::elapsed` of the Unix epoch, in milliseconds; `None` where the
/// clock stands before the epoch. It reads the clock, so nothing is stated.
#[verifier::external_body]
pub(crate) fn millis_since_epoch() -> (millis: Option<u128>) {
    match std::time::UNIX_EPOCH.elapsed() {
        Ok(elapsed) => Some(elapsed.as_millis()),
        Err(_) => None,
    }
}

} // verus!
