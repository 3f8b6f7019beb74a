//! Undoing the encodings that hide a payload: percent encoding, HTML character
//! references and base64.
use crate::number::{digit_value, parse_unsigned, unsigned_value};
use crate::outside::{base64_bytes, base64_decode, text_from_utf8, text_from_utf8_lossy, utf8_lossy};
use crate::text::{
    begins_with, blank_text, chars_of, is_blank, same_text, starts_with_text, text_between, trim, trim_text,
};
use vstd::prelude::*;
use vstd::utf8::*;

verus! {

/// The text that bytes stand for: what they encode in UTF-8, or where they are
/// not UTF-8 what the lossy conversion makes of them.
pub open spec fn lossy_text(bytes: Seq<u8>) -> Seq<char> {
    if valid_utf8(bytes) {
        decode_utf8(bytes)
    } else {
        utf8_lossy(bytes)
    }
}

/// The text that bytes stand for.
pub fn lossy_text_of(bytes: &[u8]) -> (text: String)
    ensures
        text@ == lossy_text(bytes@),
{
    text_from_utf8_lossy(bytes)
}

/// The number that a hexadecimal digit stands for, if the byte is one.
pub open spec fn hex_digit(byte: u8) -> Option<int> {
    digit_value(byte as char, 16)
}

/// The number that a hexadecimal digit stands for, if the byte is one.
pub fn hex_value(byte: u8) -> (value: Option<u8>)
    ensures
        match value {
            Some(v) => hex_digit(byte) == Some(v as int) && v < 16,
            None => hex_digit(byte) is None,
        },
{
    if 48 <= byte && byte <= 57 {
        Some((byte - 48) as u8)
    } else if 97 <= byte && byte <= 102 {
        Some((byte - 87) as u8)
    } else if 65 <= byte && byte <= 70 {
        Some((byte - 55) as u8)
    } else {
        None
    }
}

/// Whether the bytes begin with a percent sign and two hexadecimal digits.
pub open spec fn begins_with_escape(bytes: Seq<u8>) -> bool {
    &&& bytes.len() > 2
    &&& bytes[0] == 37
    &&& hex_digit(bytes[1]) is Some
    &&& hex_digit(bytes[2]) is Some
}

/// The bytes with each percent escape replaced by the byte it stands for and
/// each plus sign by a space.
pub open spec fn url_decoded(bytes: Seq<u8>) -> Seq<u8>
    decreases bytes.len(),
{
    if bytes.len() == 0 {
        Seq::empty()
    } else if begins_with_escape(bytes) {
        seq![(hex_digit(bytes[1])->0 * 16 + hex_digit(bytes[2])->0) as u8] + url_decoded(bytes.skip(3))
    } else if bytes[0] == 43 {
        seq![32u8] + url_decoded(bytes.skip(1))
    } else {
        seq![bytes[0]] + url_decoded(bytes.skip(1))
    }
}

/// One pass of percent decoding over a text.
pub open spec fn url_pass(s: Seq<char>) -> Seq<char> {
    lossy_text(url_decoded(encode_utf8(s)))
}

/// That many passes of percent decoding, one after the other.
pub open spec fn url_passes(s: Seq<char>, passes: nat) -> Seq<char>
    decreases passes,
{
    if passes == 0 {
        s
    } else {
        url_passes(url_pass(s), (passes - 1) as nat)
    }
}

/// One pass of percent decoding.
pub fn url_decode_once(input: &str) -> (text: String)
    ensures
        text@ == url_pass(input@),
{
    let bytes = input.as_bytes();
    let mut output: Vec<u8> = Vec::new();
    let total: usize = bytes.len();
    let mut index: usize = 0;
    proof {
        assert(bytes@.skip(0) =~= bytes@);
    }
    while index < total
        invariant
            index <= total == bytes@.len(),
            url_decoded(bytes@) == output@ + url_decoded(bytes@.skip(index as int)),
        decreases total - index,
    {
        let ghost rest = bytes@.skip(index as int);
        let ghost done = output@;
        let byte: u8 = bytes[index];
        if byte == 37 && total - index > 2 {
            match (hex_value(bytes[index + 1]), hex_value(bytes[index + 2])) {
                (Some(high), Some(low)) => {
                    let value: u8 = high * 16 + low;
                    output.push(value);
                    index += 3;
                    proof {
                        assert(rest.skip(3) =~= bytes@.skip(index as int));
                        assert(done + (seq![value] + url_decoded(rest.skip(3))) =~= output@ + url_decoded(rest.skip(3)));
                    }
                    continue ;
                },
                _ => {},
            }
        }
        let value: u8 = if byte == 43 {
            32
        } else {
            byte
        };
        output.push(value);
        index += 1;
        proof {
            assert(rest.skip(1) =~= bytes@.skip(index as int));
            assert(!begins_with_escape(rest));
            assert(done + (seq![value] + url_decoded(rest.skip(1))) =~= output@ + url_decoded(rest.skip(1)));
        }
    }
    proof {
        assert(output@ + Seq::<u8>::empty() =~= output@);
    }
    lossy_text_of(output.as_slice())
}

/// Once a pass changes nothing, no further pass does.
pub proof fn url_passes_settle(s: Seq<char>, passes: nat)
    requires
        url_pass(s) == s,
    ensures
        url_passes(s, passes) == s,
    decreases passes,
{
    if passes > 0 {
        url_passes_settle(s, (passes - 1) as nat);
    }
}

/// Percent decoding, repeated until it changes nothing, `max_passes` times at
/// the most.
pub fn recursive_url_decode(input: &str, max_passes: usize) -> (text: String)
    ensures
        text@ == url_passes(input@, max_passes as nat),
{
    let mut current = input.to_string();
    let mut left: usize = max_passes;
    while left > 0
        invariant
            left <= max_passes,
            url_passes(input@, max_passes as nat) == url_passes(current@, left as nat),
        decreases left,
    {
        let decoded = url_decode_once(current.as_str());
        if decoded == current {
            proof {
                url_passes_settle(current@, left as nat);
            }
            return current;
        }
        current = decoded;
        left -= 1;
    }
    current
}

/// The first position of a character in a text, if it is there.
pub open spec fn first_position(s: Seq<char>, c: char) -> Option<int>
    decreases s.len(),
{
    if s.len() == 0 {
        None
    } else if s[0] == c {
        Some(0)
    } else {
        match first_position(s.drop_first(), c) {
            Some(i) => Some(i + 1),
            None => None,
        }
    }
}

/// The first position lies in the text, holds the character, and no earlier
/// one does.
pub proof fn first_position_is_first(s: Seq<char>, c: char)
    ensures
        match first_position(s, c) {
            Some(n) => 0 <= n < s.len() && s[n] == c && forall|i: int| 0 <= i < n ==> s[i] != c,
            None => forall|i: int| 0 <= i < s.len() ==> s[i] != c,
        },
    decreases s.len(),
{
    if s.len() > 0 && s[0] != c {
        first_position_is_first(s.drop_first(), c);
        assert forall|i: int| 0 < i < s.len() implies s[i] == s.drop_first()[i - 1] by {}
    }
}

/// The only first position there can be.
proof fn first_position_is_unique(s: Seq<char>, c: char, n: int)
    requires
        0 <= n < s.len(),
        s[n] == c,
        forall|i: int| 0 <= i < n ==> s[i] != c,
    ensures
        first_position(s, c) == Some(n),
{
    first_position_is_first(s, c);
}

/// The character with that number, if there is one.
pub open spec fn char_numbered(number: Option<int>) -> Option<char> {
    match number {
        Some(n) if 0 <= n <= u32::MAX && is_scalar(n as u32) => Some((n as u32) as char),
        _ => None,
    }
}

/// The character that the name in an HTML character reference stands for.
pub open spec fn entity_char(entity: Seq<char>) -> Option<char> {
    if entity == "amp"@ {
        Some('&')
    } else if entity == "lt"@ {
        Some('<')
    } else if entity == "gt"@ {
        Some('>')
    } else if entity == "quot"@ {
        Some('"')
    } else if entity == "apos"@ {
        Some('\'')
    } else if entity == "nbsp"@ {
        Some(' ')
    } else if begins_with(entity, "#x"@) || begins_with(entity, "#X"@) {
        char_numbered(unsigned_value(entity.skip(2), 16))
    } else if begins_with(entity, "#"@) {
        char_numbered(unsigned_value(entity.skip(1), 10))
    } else {
        None
    }
}

/// The character reference that a text begins with: how many characters it
/// takes up, and the character that it stands for.
pub open spec fn leading_entity(s: Seq<char>) -> Option<(int, char)> {
    if s.len() > 0 && s[0] == '&' {
        match first_position(s.drop_first(), ';') {
            Some(n) => match entity_char(s.subrange(1, n + 1)) {
                Some(c) => Some((n + 2, c)),
                None => None,
            },
            None => None,
        }
    } else {
        None
    }
}

/// A leading character reference lies in the text.
pub proof fn leading_entity_fits(s: Seq<char>)
    ensures
        leading_entity(s) matches Some((n, c)) ==> 2 <= n <= s.len(),
{
    if s.len() > 0 {
        first_position_is_first(s.drop_first(), ';');
    }
}

/// The text with each HTML character reference replaced by its character.
pub open spec fn html_decoded(s: Seq<char>) -> Seq<char>
    decreases s.len(),
{
    proof {
        leading_entity_fits(s);
    }
    if s.len() == 0 {
        Seq::empty()
    } else {
        match leading_entity(s) {
            Some((n, c)) => seq![c] + html_decoded(s.skip(n)),
            None => seq![s[0]] + html_decoded(s.skip(1)),
        }
    }
}

/// The number that the text denotes as a `u32`, as a character.
fn numbered_char(digits: &str, radix: u32) -> (c: Option<char>)
    requires
        radix == 10 || radix == 16,
    ensures
        c == char_numbered(unsigned_value(digits@, radix as int)),
{
    match parse_unsigned(digits, radix, u32::MAX as u64) {
        Some(n) => {
            let c = char::from_u32(n as u32);
            proof {
                if let Some(v) = c {
                    char_u32_cast(v, n as u32);
                }
            }
            c
        },
        None => None,
    }
}

/// The character that the name in an HTML character reference stands for.
pub fn decode_single_html_entity(entity: &str) -> (c: Option<char>)
    ensures
        c == entity_char(entity@),
{
    if same_text(entity, "amp") {
        Some('&')
    } else if same_text(entity, "lt") {
        Some('<')
    } else if same_text(entity, "gt") {
        Some('>')
    } else if same_text(entity, "quot") {
        Some('"')
    } else if same_text(entity, "apos") {
        Some('\'')
    } else if same_text(entity, "nbsp") {
        Some(' ')
    } else {
        let chars = chars_of(entity);
        proof {
            reveal_strlit("#x");
            reveal_strlit("#X");
            reveal_strlit("#");
        }
        if starts_with_text(entity, "#x") || starts_with_text(entity, "#X") {
            let digits = text_between(&chars, 2, chars.len());
            proof {
                assert(digits@ =~= entity@.skip(2));
            }
            numbered_char(digits.as_str(), 16)
        } else if starts_with_text(entity, "#") {
            let digits = text_between(&chars, 1, chars.len());
            proof {
                assert(digits@ =~= entity@.skip(1));
            }
            numbered_char(digits.as_str(), 10)
        } else {
            None
        }
    }
}

/// The character reference that stands at a position: the position behind it
/// and the character that it stands for.
fn entity_at(chars: &Vec<char>, index: usize) -> (found: Option<(usize, char)>)
    requires
        index < chars@.len(),
    ensures
        match found {
            Some((end, c)) => leading_entity(chars@.skip(index as int)) == Some((end - index, c)),
            None => leading_entity(chars@.skip(index as int)) is None,
        },
{
    let ghost rest = chars@.skip(index as int);
    if chars[index] != '&' {
        return None;
    }
    let total: usize = chars.len();
    let mut end: usize = index + 1;
    while end < total && chars[end] != ';'
        invariant
            index + 1 <= end <= total == chars@.len(),
            forall|i: int| index < i < end ==> chars@[i] != ';',
        decreases chars@.len() - end,
    {
        end += 1;
    }
    proof {
        first_position_is_first(rest.drop_first(), ';');
        assert forall|i: int| 0 <= i < rest.drop_first().len() implies rest.drop_first()[i] == chars@[index + 1 + i] by {}
    }
    if end == total {
        return None;
    }
    let entity = text_between(chars, index + 1, end);
    proof {
        first_position_is_unique(rest.drop_first(), ';', end - index - 1);
        assert(entity@ =~= rest.subrange(1, end - index));
    }
    match decode_single_html_entity(entity.as_str()) {
        Some(c) => Some((end + 1, c)),
        None => None,
    }
}

/// The text with each HTML character reference replaced by its character.
pub fn decode_html_entities(input: &str) -> (text: String)
    ensures
        text@ == html_decoded(input@),
{
    let mut output = String::new();
    let chars = chars_of(input);
    let mut index: usize = 0;
    proof {
        assert(chars@.skip(0) =~= chars@);
        assert(output@ + html_decoded(chars@) =~= html_decoded(chars@));
    }
    while index < chars.len()
        invariant
            index <= chars@.len(),
            html_decoded(chars@) == output@ + html_decoded(chars@.skip(index as int)),
        decreases chars@.len() - index,
    {
        let ghost rest = chars@.skip(index as int);
        let ghost done = output@;
        proof {
            leading_entity_fits(rest);
        }
        match entity_at(&chars, index) {
            Some((end, c)) => {
                output.push(c);
                proof {
                    assert(rest.skip(end - index) =~= chars@.skip(end as int));
                    assert(done + (seq![c] + html_decoded(chars@.skip(end as int))) =~= output@ + html_decoded(
                        chars@.skip(end as int),
                    ));
                }
                index = end;
            },
            None => {
                output.push(chars[index]);
                index += 1;
                proof {
                    assert(rest.skip(1) =~= chars@.skip(index as int));
                    assert(done + (seq![rest[0]] + html_decoded(chars@.skip(index as int))) =~= output@ + html_decoded(
                        chars@.skip(index as int),
                    ));
                }
            },
        }
    }
    proof {
        assert(output@ + Seq::<char>::empty() =~= output@);
    }
    output
}

/// The characters of base64 text: the standard alphabet and the padding sign.
pub open spec fn is_base64_char(c: char) -> bool {
    ||| 'a' <= c <= 'z'
    ||| 'A' <= c <= 'Z'
    ||| '0' <= c <= '9'
    ||| c == '+'
    ||| c == '/'
    ||| c == '='
}

/// Whether a text could be base64: at least eight characters, a multiple of
/// four, of its alphabet only, white space around them aside.
pub open spec fn base64_shaped(s: Seq<char>) -> bool {
    let candidate = trim(s);
    &&& candidate.len() >= 8
    &&& candidate.len() % 4 == 0
    &&& forall|i: int| 0 <= i < candidate.len() ==> is_base64_char(#[trigger] candidate[i])
}

/// Whether a text could be base64.
pub fn looks_like_base64(input: &str) -> (b: bool)
    ensures
        b == base64_shaped(input@),
{
    let candidate = trim_text(input);
    let chars = chars_of(candidate.as_str());
    if chars.len() < 8 || chars.len() % 4 != 0 {
        return false;
    }
    let mut i: usize = 0;
    while i < chars.len()
        invariant
            i <= chars@.len(),
            chars@ == trim(input@),
            forall|j: int| 0 <= j < i ==> is_base64_char(#[trigger] chars@[j]),
        decreases chars@.len() - i,
    {
        let c: char = chars[i];
        if !(('a' <= c && c <= 'z') || ('A' <= c && c <= 'Z') || ('0' <= c && c <= '9') || c == '+' || c
            == '/' || c == '=') {
            return false;
        }
        i += 1;
    }
    true
}

/// The text that decoded bytes are taken for: what they encode in UTF-8, unless
/// it is blank.
pub open spec fn readable_text(bytes: Seq<u8>) -> Option<Seq<char>> {
    if valid_utf8(bytes) && !is_blank(decode_utf8(bytes)) {
        Some(decode_utf8(bytes))
    } else {
        None
    }
}

/// The text that decoded bytes are taken for.
pub fn readable_text_of(bytes: Vec<u8>) -> (text: Option<String>)
    ensures
        match text {
            Some(t) => readable_text(bytes@) == Some(t@),
            None => readable_text(bytes@) is None,
        },
{
    match text_from_utf8(bytes) {
        Some(text) => if blank_text(text.as_str()) {
            None
        } else {
            Some(text)
        },
        None => None,
    }
}

/// The text behind a base64 encoding, given what the decoder makes of it.
pub open spec fn base64_text(s: Seq<char>) -> Option<Seq<char>> {
    if base64_shaped(s) {
        match base64_bytes(trim(s)) {
            Some(bytes) => readable_text(bytes),
            None => None,
        }
    } else {
        None
    }
}

/// The text behind a base64 encoding, if the input is one.
pub fn decode_base64_text(input: &str) -> (text: Option<String>)
    ensures
        match text {
            Some(t) => base64_text(input@) == Some(t@),
            None => base64_text(input@) is None,
        },
{
    if !looks_like_base64(input) {
        return None;
    }
    let candidate = trim_text(input);
    match base64_decode(candidate.as_str()) {
        Ok(bytes) => readable_text_of(bytes),
        Err(_) => None,
    }
}

} // verus!
