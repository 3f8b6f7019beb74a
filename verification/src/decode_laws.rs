//! What undoing percent encoding and HTML character references does, piece by
//! piece.
use crate::decode::{
    begins_with_escape, char_numbered, entity_char, first_position, first_position_is_first, hex_digit, html_decoded,
    url_decoded, url_pass, url_passes,
};
use crate::number::{digits_value, unsigned_value};
use crate::outside::utf8_lossy;
use crate::text::begins_with;
use vstd::prelude::*;
use vstd::utf8::*;

verus! {

/// The value of a hexadecimal digit, and nothing for other bytes: `0` to `9`,
/// `a` to `f` and `A` to `F`.
pub open spec fn nibble(byte: u8) -> Option<int> {
    if 48 <= byte <= 57 {
        Some(byte - 48)
    } else if 97 <= byte <= 102 {
        Some(byte - 87)
    } else if 65 <= byte <= 70 {
        Some(byte - 55)
    } else {
        None
    }
}

/// Percent decoding works piece by piece: cut at any place where no escape runs
/// over the border, the pieces decode on their own.
pub proof fn percent_decoding_is_piecewise(a: Seq<u8>, b: Seq<u8>)
    requires
        a.len() >= 1 ==> a[a.len() - 1] != 37,
        a.len() >= 2 ==> a[a.len() - 2] != 37,
    ensures
        url_decoded(a + b) == url_decoded(a) + url_decoded(b),
    decreases a.len(),
{
    let whole = a + b;
    if a.len() == 0 {
        assert(whole =~= b);
        assert(url_decoded(a) + url_decoded(b) =~= url_decoded(b));
    } else if begins_with_escape(whole) {
        assert(a[0] == 37);
        assert(a.len() > 2);
        assert(whole[1] == a[1] && whole[2] == a[2]);
        let rest = a.skip(3);
        assert(rest.len() >= 1 ==> rest[rest.len() - 1] == a[a.len() - 1]);
        assert(rest.len() >= 2 ==> rest[rest.len() - 2] == a[a.len() - 2]);
        percent_decoding_is_piecewise(rest, b);
        assert(whole.skip(3) =~= rest + b);
        assert(begins_with_escape(a));
        assert(url_decoded(whole) =~= url_decoded(a) + url_decoded(b));
    } else {
        let rest = a.skip(1);
        assert(rest.len() >= 1 ==> rest[rest.len() - 1] == a[a.len() - 1]);
        assert(rest.len() >= 2 ==> rest[rest.len() - 2] == a[a.len() - 2]);
        percent_decoding_is_piecewise(rest, b);
        assert(whole.skip(1) =~= rest + b);
        assert(whole[0] == a[0]);
        assert(!begins_with_escape(a)) by {
            if begins_with_escape(a) {
                assert(whole[1] == a[1] && whole[2] == a[2]);
            }
        }
        assert(url_decoded(whole) =~= url_decoded(a) + url_decoded(b));
    }
}

/// What a single byte decodes to: a plus sign to a space, and any other byte to
/// itself.
pub proof fn percent_decoding_of_one(byte: u8)
    ensures
        url_decoded(Seq::<u8>::empty()) == Seq::<u8>::empty(),
        url_decoded(seq![byte]) == (if byte == 43 {
            seq![32u8]
        } else {
            seq![byte]
        }),
{
    assert(seq![byte].skip(1) =~= Seq::<u8>::empty());
    reveal_with_fuel(url_decoded, 2);
    assert(url_decoded(seq![byte]) =~= (if byte == 43 {
        seq![32u8]
    } else {
        seq![byte]
    }));
}

/// Wherever a percent sign and two hexadecimal digits stand, they decode to the
/// byte with that number, and what follows them decodes on its own. A percent
/// sign before anything else stays.
pub proof fn every_escape_is_decoded(high: u8, low: u8, rest: Seq<u8>)
    ensures
        nibble(high) is Some && nibble(low) is Some ==> url_decoded(seq![37u8, high, low] + rest) == seq![
            (nibble(high)->0 * 16 + nibble(low)->0) as u8,
        ] + url_decoded(rest),
        nibble(high) is None || nibble(low) is None ==> url_decoded(seq![37u8, high, low] + rest) == seq![37u8]
            + url_decoded(seq![high, low] + rest),
        url_decoded(seq![37u8]) == seq![37u8],
        url_decoded(seq![37u8, high]) == seq![37u8] + url_decoded(seq![high]),
{
    let whole = seq![37u8, high, low] + rest;
    assert(hex_digit(high) == nibble(high));
    assert(hex_digit(low) == nibble(low));
    assert(whole.skip(3) =~= rest);
    assert(whole.skip(1) =~= seq![high, low] + rest);
    assert(seq![37u8, high].skip(1) =~= seq![high]);
    percent_decoding_of_one(37);
}

/// A pass of percent decoding gives the text that the decoded bytes encode, and
/// what the lossy conversion makes of them where they encode none.
pub proof fn pass_decodes_the_bytes(text: Seq<char>)
    ensures
        valid_utf8(url_decoded(encode_utf8(text))) ==> encode_utf8(url_pass(text)) == url_decoded(encode_utf8(text)),
        !valid_utf8(url_decoded(encode_utf8(text))) ==> url_pass(text) == utf8_lossy(url_decoded(encode_utf8(text))),
{
    if valid_utf8(url_decoded(encode_utf8(text))) {
        decode_utf8_encode_utf8(url_decoded(encode_utf8(text)));
    }
}

/// Passes follow each other: so many and then so many more are all of them.
pub proof fn passes_follow_each_other(text: Seq<char>, first: nat, more: nat)
    ensures
        url_passes(text, first + more) == url_passes(url_passes(text, first), more),
        url_passes(text, 0) == text,
        url_passes(text, 1) == url_pass(text),
    decreases first,
{
    reveal_with_fuel(url_passes, 2);
    if first > 0 {
        passes_follow_each_other(url_pass(text), (first - 1) as nat, more);
        assert((first - 1) as nat + more == (first + more - 1) as nat);
    }
}

/// HTML decoding works piece by piece: what stands before an ampersand does not
/// depend on what follows.
pub proof fn reference_decoding_is_piecewise(a: Seq<char>, b: Seq<char>)
    requires
        forall|i: int| 0 <= i < a.len() ==> #[trigger] a[i] != '&',
    ensures
        html_decoded(a + b) == a + html_decoded(b),
    decreases a.len(),
{
    if a.len() == 0 {
        assert(a + b =~= b);
        assert(a + html_decoded(b) =~= html_decoded(b));
    } else {
        let rest = a.skip(1);
        assert forall|i: int| 0 <= i < rest.len() implies #[trigger] rest[i] != '&' by {
            assert(rest[i] == a[i + 1]);
        }
        reference_decoding_is_piecewise(rest, b);
        assert((a + b).skip(1) =~= rest + b);
        assert((a + b)[0] == a[0]);
        assert(a[0] != '&');
        assert(html_decoded(a + b) =~= a + html_decoded(b));
    }
}

/// Whatever stands between an ampersand and the next semicolon is decoded if it
/// is the name of a character, and what follows decodes on its own. If it is no
/// name, the ampersand stays, and what follows it decodes on its own.
pub proof fn every_reference_is_decoded(name: Seq<char>, rest: Seq<char>)
    requires
        forall|i: int| 0 <= i < name.len() ==> #[trigger] name[i] != ';',
    ensures
        html_decoded(seq!['&'] + name + seq![';'] + rest) == (match entity_char(name) {
            Some(c) => seq![c] + html_decoded(rest),
            None => seq!['&'] + html_decoded(name + seq![';'] + rest),
        }),
{
    let whole = seq!['&'] + name + seq![';'] + rest;
    let inner = whole.drop_first();
    let n = name.len() as int;
    assert(inner =~= name + seq![';'] + rest);
    first_position_is_first(inner, ';');
    assert(inner[n] == ';');
    assert forall|i: int| 0 <= i < n implies inner[i] != ';' by {
        assert(inner[i] == name[i]);
    }
    assert(first_position(inner, ';') == Some(n));
    assert(whole.subrange(1, n + 1) =~= name);
    assert(whole.skip(n + 2) =~= rest);
    assert(whole.skip(1) =~= inner);
}

/// An ampersand that no semicolon follows stays.
pub proof fn lone_ampersand_stays(rest: Seq<char>)
    requires
        forall|i: int| 0 <= i < rest.len() ==> #[trigger] rest[i] != ';',
    ensures
        html_decoded(seq!['&'] + rest) == seq!['&'] + html_decoded(rest),
{
    let whole = seq!['&'] + rest;
    assert(whole.drop_first() =~= rest);
    assert(whole.skip(1) =~= rest);
    first_position_is_first(rest, ';');
}

/// The names of characters are `amp`, `lt`, `gt`, `quot`, `apos` and `nbsp`, as
/// they are written here; any other name that does not begin with `#` is none.
pub proof fn characters_have_these_names(name: Seq<char>)
    ensures
        entity_char(seq!['a', 'm', 'p']) == Some('&'),
        entity_char(seq!['l', 't']) == Some('<'),
        entity_char(seq!['g', 't']) == Some('>'),
        entity_char(seq!['q', 'u', 'o', 't']) == Some('"'),
        entity_char(seq!['a', 'p', 'o', 's']) == Some('\''),
        entity_char(seq!['n', 'b', 's', 'p']) == Some(' '),
        (name.len() == 0 || name[0] != '#') && entity_char(name) is Some ==> {
            ||| name == seq!['a', 'm', 'p']
            ||| name == seq!['l', 't']
            ||| name == seq!['g', 't']
            ||| name == seq!['q', 'u', 'o', 't']
            ||| name == seq!['a', 'p', 'o', 's']
            ||| name == seq!['n', 'b', 's', 'p']
        },
{
    reveal_entity_names();
    if begins_with(name, "#x"@) {
        assert(name.subrange(0, 2)[0] == name[0]);
    }
    if begins_with(name, "#X"@) {
        assert(name.subrange(0, 2)[0] == name[0]);
    }
    if begins_with(name, "#"@) {
        assert(name.subrange(0, 1)[0] == name[0]);
    }
}

/// The characters of the names of characters.
proof fn reveal_entity_names()
    ensures
        "amp"@ == seq!['a', 'm', 'p'],
        "lt"@ == seq!['l', 't'],
        "gt"@ == seq!['g', 't'],
        "quot"@ == seq!['q', 'u', 'o', 't'],
        "apos"@ == seq!['a', 'p', 'o', 's'],
        "nbsp"@ == seq!['n', 'b', 's', 'p'],
        "#x"@ == seq!['#', 'x'],
        "#X"@ == seq!['#', 'X'],
        "#"@ == seq!['#'],
{
    reveal_strlit("amp");
    reveal_strlit("lt");
    reveal_strlit("gt");
    reveal_strlit("quot");
    reveal_strlit("apos");
    reveal_strlit("nbsp");
    reveal_strlit("#x");
    reveal_strlit("#X");
    reveal_strlit("#");
    assert("amp"@ =~= seq!['a', 'm', 'p']);
    assert("lt"@ =~= seq!['l', 't']);
    assert("gt"@ =~= seq!['g', 't']);
    assert("quot"@ =~= seq!['q', 'u', 'o', 't']);
    assert("apos"@ =~= seq!['a', 'p', 'o', 's']);
    assert("nbsp"@ =~= seq!['n', 'b', 's', 'p']);
    assert("#x"@ =~= seq!['#', 'x']);
    assert("#X"@ =~= seq!['#', 'X']);
    assert("#"@ =~= seq!['#']);
}

/// A number names the character with that number, in decimal behind `#`, in
/// hexadecimal behind `#x` or `#X`. Digits that give the number of no character
/// name none.
pub proof fn numbers_name_characters(digits: Seq<char>, c: char)
    ensures
        unsigned_value(digits, 16) == Some(c as int) ==> entity_char(seq!['#', 'x'] + digits) == Some(c) && entity_char(
            seq!['#', 'X'] + digits,
        ) == Some(c),
        unsigned_value(digits, 10) == Some(c as int) ==> entity_char(seq!['#'] + digits) == Some(c),
        entity_char(seq!['#', 'x'] + digits) == Some(c) ==> unsigned_value(digits, 16) == Some(c as int),
        entity_char(seq!['#', 'X'] + digits) == Some(c) ==> unsigned_value(digits, 16) == Some(c as int),
        entity_char(seq!['#'] + digits) == Some(c) && digits.len() > 0 && digits[0] != 'x' && digits[0] != 'X'
            ==> unsigned_value(digits, 10) == Some(c as int),
{
    reveal_entity_names();
    let small = seq!['#', 'x'] + digits;
    let large = seq!['#', 'X'] + digits;
    let plain = seq!['#'] + digits;
    char_is_scalar(c);
    char_u32_cast(c, c as u32);
    assert(small[0] == '#' && large[0] == '#' && plain[0] == '#');
    assert(small.subrange(0, 2) =~= "#x"@);
    assert(large.subrange(0, 2) =~= "#X"@);
    assert(large.subrange(0, 2)[1] == 'X');
    assert(small.skip(2) =~= digits);
    assert(large.skip(2) =~= digits);
    assert(plain.skip(1) =~= digits);
    assert(plain.subrange(0, 1) =~= "#"@);
    assert("amp"@[0] == 'a' && "lt"@[0] == 'l' && "gt"@[0] == 'g' && "quot"@[0] == 'q' && "apos"@[0] == 'a'
        && "nbsp"@[0] == 'n');
    assert(entity_char(small) == char_numbered(unsigned_value(digits, 16)));
    assert(entity_char(large) == char_numbered(unsigned_value(digits, 16)));
    if begins_with(plain, "#x"@) {
        assert(plain.subrange(0, 2)[1] == "#x"@[1]);
        assert(digits[0] == 'x');
    }
    if begins_with(plain, "#X"@) {
        assert(plain.subrange(0, 2)[1] == "#X"@[1]);
        assert(digits[0] == 'X');
    }
    number_has_no_letter(digits);
    numbered_is_that_number(unsigned_value(digits, 16), c);
    numbered_is_that_number(unsigned_value(digits, 10), c);
}

/// A decimal number does not begin with a letter.
proof fn number_has_no_letter(digits: Seq<char>)
    ensures
        digits.len() > 0 && (digits[0] == 'x' || digits[0] == 'X') ==> unsigned_value(digits, 10) is None,
{
    if digits.len() > 0 && (digits[0] == 'x' || digits[0] == 'X') {
        no_number_behind_letter(digits);
    }
}

/// Digits whose first is none denote no number.
proof fn no_number_behind_letter(digits: Seq<char>)
    requires
        digits.len() > 0,
        digits[0] == 'x' || digits[0] == 'X',
    ensures
        digits_value(digits, 10) is None,
    decreases digits.len(),
{
    if digits.len() > 1 {
        no_number_behind_letter(digits.drop_last());
    }
}

/// The character with a number has that number.
proof fn numbered_is_that_number(number: Option<int>, c: char)
    ensures
        char_numbered(number) == Some(c) <==> number == Some(c as int),
{
    char_is_scalar(c);
    char_u32_cast(c, c as u32);
    if let Some(n) = number {
        if 0 <= n <= u32::MAX && is_scalar(n as u32) {
            let d = (n as u32) as char;
            char_u32_cast(d, n as u32);
        }
    }
}

} // verus!
