//! What the text primitives do, said character by character and piece by piece.
use crate::number::{digit_value, digits_value, hex, signed_value, unsigned_value};
use crate::text::{
    ascii_lower, ascii_upper, begins_with, ends_in, has_part, is_blank, is_white_space, replaced, stands_at, trim,
    trim_is_subrange,
};
use crate::text_map::text_before;
use crate::words::{
    collapsed, extend_last, in_word, is_word, joined, segments, words, words_are_words, words_of_joined,
    words_of_word,
};
use vstd::prelude::*;

verus! {

/// White space is what Unicode says it is: these 25 characters.
pub proof fn white_space_is_unicode(c: char)
    ensures
        is_white_space(c) <==> {
            let n = c as int;
            9 <= n <= 13 || n == 32 || n == 0x85 || n == 0xa0 || n == 0x1680 || 0x2000 <= n <= 0x200a || n == 0x2028
                || n == 0x2029 || n == 0x202f || n == 0x205f || n == 0x3000
        },
{
}

/// A text is blank exactly if no character of it is anything but white space.
pub proof fn blank_has_nothing_else(text: Seq<char>)
    ensures
        is_blank(text) <==> !(exists|i: int| 0 <= i < text.len() && !is_white_space(#[trigger] text[i])),
{
}

/// Trimming takes off what is white space at either end, and nothing else.
pub proof fn trimming_takes_off_the_ends(front: Seq<char>, kept: Seq<char>, back: Seq<char>)
    requires
        forall|i: int| 0 <= i < front.len() ==> is_white_space(#[trigger] front[i]),
        forall|i: int| 0 <= i < back.len() ==> is_white_space(#[trigger] back[i]),
        kept.len() > 0 ==> !is_white_space(kept[0]) && !is_white_space(kept[kept.len() - 1]),
    ensures
        trim(front + kept + back) == kept,
{
    let text = front + kept + back;
    let from = front.len() as int;
    let to = (front.len() + kept.len()) as int;
    assert(text.take(from) =~= front);
    assert(text.skip(to) =~= back);
    if kept.len() > 0 {
        assert(text[from] == kept[0]);
        assert(text[to - 1] == kept[kept.len() - 1]);
    }
    trim_is_subrange(text, from, to);
    assert(text.subrange(from, to) =~= kept);
}

/// Every text has white space in front, a part that neither begins nor ends
/// with any, and white space behind.
pub proof fn texts_have_trimmed_parts(text: Seq<char>)
    ensures
        exists|front: Seq<char>, back: Seq<char>|
            #![trigger front + trim(text) + back]
            {
                &&& text == front + trim(text) + back
                &&& is_blank(front)
                &&& is_blank(back)
                &&& trim(text).len() > 0 ==> !is_white_space(trim(text)[0]) && !is_white_space(
                    trim(text)[trim(text).len() - 1],
                )
            },
{
    let from = leading_blanks(text);
    let to = trailing_start(text, from);
    let front = text.take(from);
    let back = text.skip(to);
    trim_is_subrange(text, from, to);
    assert(text =~= front + trim(text) + back);
}

/// The number of white space characters that a text begins with.
proof fn leading_blanks(text: Seq<char>) -> (from: int)
    ensures
        0 <= from <= text.len(),
        is_blank(text.take(from)),
        from < text.len() ==> !is_white_space(text[from]),
    decreases text.len(),
{
    if text.len() > 0 && is_white_space(text[0]) {
        let rest = text.drop_first();
        let n = leading_blanks(rest);
        assert forall|i: int| 0 <= i < text.take(n + 1).len() implies is_white_space(#[trigger] text.take(n + 1)[i]) by {
            if i > 0 {
                assert(rest.take(n)[i - 1] == text.take(n + 1)[i]);
            }
        }
        if n < rest.len() {
            assert(rest[n] == text[n + 1]);
        }
        n + 1
    } else {
        0
    }
}

/// Where the white space begins that a text ends in.
proof fn trailing_start(text: Seq<char>, from: int) -> (to: int)
    requires
        0 <= from <= text.len(),
    ensures
        from <= to <= text.len(),
        is_blank(text.skip(to)),
        from < to ==> !is_white_space(text[to - 1]),
    decreases text.len() - from,
{
    if from == text.len() {
        from
    } else if is_white_space(text[text.len() - 1]) {
        let rest = text.drop_last();
        let to = trailing_start(rest, from);
        assert forall|i: int| 0 <= i < text.skip(to).len() implies is_white_space(#[trigger] text.skip(to)[i]) by {
            if i < text.skip(to).len() - 1 {
                assert(rest.skip(to)[i] == text.skip(to)[i]);
            }
        }
        to
    } else {
        text.len() as int
    }
}

/// Lower case changes the letters from A to Z to those from a to z, each on its
/// own, and no other character. Upper case does the opposite.
pub proof fn case_is_by_character(text: Seq<char>)
    ensures
        ascii_lower(text).len() == text.len(),
        ascii_upper(text).len() == text.len(),
        forall|i: int|
            0 <= i < text.len() ==> (#[trigger] ascii_lower(text)[i]) as int == (if 65 <= text[i] as int <= 90 {
                text[i] as int + 32
            } else {
                text[i] as int
            }),
        forall|i: int|
            0 <= i < text.len() ==> (#[trigger] ascii_upper(text)[i]) as int == (if 97 <= text[i] as int <= 122 {
                text[i] as int - 32
            } else {
                text[i] as int
            }),
{
}

/// What a text is made of stands in it: at the front, in the middle and at the
/// end.
pub proof fn parts_stand_where_they_are_put(front: Seq<char>, part: Seq<char>, back: Seq<char>)
    ensures
        has_part(front + part + back, part),
        begins_with(part + back, part),
        ends_in(front + part, part),
{
    let whole = front + part + back;
    let at = front.len() as int;
    assert(whole.subrange(at, at + part.len()) =~= part);
    assert(stands_at(whole, part, at));
    assert((part + back).subrange(0, part.len() as int) =~= part);
    assert((front + part).subrange(at, at + part.len()) =~= part);
}

/// What stands in a text is something that the text is made of.
pub proof fn standing_parts_are_there(text: Seq<char>, part: Seq<char>)
    ensures
        has_part(text, part) ==> exists|front: Seq<char>, back: Seq<char>| text == #[trigger] (front + part + back),
        begins_with(text, part) ==> exists|back: Seq<char>| text == #[trigger] (part + back),
        ends_in(text, part) ==> exists|front: Seq<char>| text == #[trigger] (front + part),
{
    if has_part(text, part) {
        let at = choose|at: int| stands_at(text, part, at);
        let front = text.take(at);
        let back = text.skip(at + part.len());
        assert(text.subrange(at, at + part.len()) == part);
        assert forall|i: int| 0 <= i < text.len() implies text[i] == (front + part + back)[i] by {
            if at <= i < at + part.len() {
                assert(text.subrange(at, at + part.len())[i - at] == text[i]);
            }
        }
        assert(text =~= front + part + back);
    }
    if begins_with(text, part) {
        let back = text.skip(part.len() as int);
        assert forall|i: int| 0 <= i < part.len() implies text[i] == part[i] by {
            assert(text.subrange(0, part.len() as int)[i] == text[i]);
        }
        assert(text =~= part + back);
    }
    if ends_in(text, part) {
        let at = text.len() - part.len();
        let front = text.take(at);
        assert forall|i: int| 0 <= i < part.len() implies text[at + i] == part[i] by {
            assert(text.subrange(at, at + part.len())[i] == text[at + i]);
        }
        assert(text =~= front + part);
    }
}

/// Replacing a character works piece by piece.
pub proof fn replacing_is_piecewise(a: Seq<char>, b: Seq<char>, c: char, with: Seq<char>)
    ensures
        replaced(a + b, c, with) == replaced(a, c, with) + replaced(b, c, with),
    decreases b.len(),
{
    if b.len() == 0 {
        assert(a + b =~= a);
        assert(replaced(a, c, with) + replaced(b, c, with) =~= replaced(a, c, with));
    } else {
        replacing_is_piecewise(a, b.drop_last(), c, with);
        assert((a + b).drop_last() =~= a + b.drop_last());
        assert(replaced(a + b, c, with) =~= replaced(a, c, with) + replaced(b, c, with));
    }
}

/// The character that is replaced becomes the other text; any other character
/// stays.
pub proof fn replacing_of_one(x: char, c: char, with: Seq<char>)
    ensures
        replaced(Seq::<char>::empty(), c, with) == Seq::<char>::empty(),
        replaced(seq![x], c, with) == (if x == c {
            with
        } else {
            seq![x]
        }),
{
    assert(seq![x].drop_last() =~= Seq::<char>::empty());
    reveal_with_fuel(replaced, 2);
    assert(replaced(seq![x], c, with) =~= (if x == c {
        with
    } else {
        seq![x]
    }));
}

/// White space parts a text into words: the words before it and those behind it
/// are the words of the whole.
pub proof fn words_part_at_white_space(a: Seq<char>, c: char, b: Seq<char>)
    requires
        is_white_space(c),
    ensures
        words(a + seq![c] + b) == words(a) + words(b),
    decreases b.len(),
{
    let whole = a + seq![c] + b;
    if b.len() == 0 {
        assert(whole.drop_last() =~= a);
        assert(words(a) + words(b) =~= words(a));
    } else {
        let rest = b.drop_last();
        words_part_at_white_space(a, c, rest);
        assert(whole.drop_last() =~= a + seq![c] + rest);
        assert(whole.last() == b.last());
        assert(in_word(whole.drop_last()) == in_word(rest));
        if !is_white_space(b.last()) {
            if in_word(rest) {
                words_are_words(rest);
                assert(extend_last(words(a) + words(rest), b.last()) =~= words(a) + extend_last(words(rest), b.last()));
            } else {
                assert((words(a) + words(rest)).push(seq![b.last()]) =~= words(a) + words(rest).push(seq![b.last()]));
            }
        }
    }
}

/// Nothing has no words, and a text without white space is one word.
pub proof fn words_of_unbroken_text(text: Seq<char>)
    requires
        forall|i: int| 0 <= i < text.len() ==> !is_white_space(#[trigger] text[i]),
    ensures
        words(text) == (if text.len() == 0 {
            Seq::empty()
        } else {
            seq![text]
        }),
{
    if text.len() > 0 {
        assert(is_word(text));
        words_of_word(text);
    } else {
        assert(words(text) =~= Seq::<Seq<char>>::empty());
    }
}

/// Joining works piece by piece, with one separator between two pieces.
pub proof fn joining_is_piecewise(a: Seq<Seq<char>>, b: Seq<Seq<char>>, separator: Seq<char>)
    requires
        a.len() > 0,
        b.len() > 0,
    ensures
        joined(a + b, separator) == joined(a, separator) + separator + joined(b, separator),
    decreases b.len(),
{
    assert((a + b).drop_last() =~= a + b.drop_last());
    if b.len() == 1 {
        assert(a + b.drop_last() =~= a);
        assert(joined(a + b, separator) =~= joined(a, separator) + separator + b[0]);
    } else {
        joining_is_piecewise(a, b.drop_last(), separator);
        assert(joined(a + b, separator) =~= joined(a, separator) + separator + joined(b, separator));
    }
}

/// Nothing joined is nothing, and one text joined is itself.
pub proof fn joining_of_one(text: Seq<char>, separator: Seq<char>)
    ensures
        joined(Seq::<Seq<char>>::empty(), separator) == Seq::<char>::empty(),
        joined(seq![text], separator) == text,
{
}

/// Collapsing leaves the words of a text as they are, with one space between
/// neighbours and nothing else.
pub proof fn collapsing_keeps_the_words(text: Seq<char>)
    ensures
        words(collapsed(text)) == words(text),
        collapsed(text) == joined(words(text), seq![' ']),
{
    words_are_words(text);
    words_of_joined(words(text));
}

/// A separator parts a text: the pieces before it and those behind it are the
/// pieces of the whole.
pub proof fn segments_part_at_separators(a: Seq<char>, b: Seq<char>, separator: char)
    ensures
        segments(a + seq![separator] + b, separator) == segments(a, separator) + segments(b, separator),
        segments(b, separator).len() > 0,
    decreases b.len(),
{
    let whole = a + seq![separator] + b;
    if b.len() == 0 {
        assert(whole.drop_last() =~= a);
        assert(b =~= Seq::<char>::empty());
        assert(segments(a, separator).push(Seq::<char>::empty()) =~= segments(a, separator) + segments(b, separator));
    } else {
        let rest = b.drop_last();
        segments_part_at_separators(a, rest, separator);
        assert(whole.drop_last() =~= a + seq![separator] + rest);
        assert(whole.last() == b.last());
        let front = segments(a, separator);
        let back = segments(rest, separator);
        if b.last() == separator {
            assert((front + back).push(Seq::<char>::empty()) =~= front + back.push(Seq::<char>::empty()));
        } else {
            assert(extend_last(front + back, b.last()) =~= front + extend_last(back, b.last()));
        }
    }
}

/// A text without separators is one piece.
pub proof fn segments_of_unbroken_text(text: Seq<char>, separator: char)
    requires
        forall|i: int| 0 <= i < text.len() ==> #[trigger] text[i] != separator,
    ensures
        segments(text, separator) == seq![text],
    decreases text.len(),
{
    if text.len() == 0 {
        assert(text =~= Seq::<char>::empty());
        assert(segments(text, separator) =~= seq![text]);
    } else {
        let rest = text.drop_last();
        assert forall|i: int| 0 <= i < rest.len() implies #[trigger] rest[i] != separator by {
            assert(rest[i] == text[i]);
        }
        segments_of_unbroken_text(rest, separator);
        assert(text.last() != separator);
        assert(rest.push(text.last()) =~= text);
        assert(extend_last(seq![rest], text.last()) =~= seq![text]);
    }
}

/// The digits and what they stand for: 0 to 9, then the letters from a, in
/// either case, as far as the radix goes.
pub proof fn digits_have_their_values(c: char, radix: int)
    requires
        1 <= radix <= 36,
    ensures
        ({
            let n = c as int;
            digit_value(c, radix) == (if 48 <= n <= 57 && n - 48 < radix {
                Some(n - 48)
            } else if 97 <= n <= 122 && n - 87 < radix {
                Some(n - 87)
            } else if 65 <= n <= 90 && n - 55 < radix {
                Some(n - 55)
            } else {
                None
            })
        }),
{
}

/// Each further digit multiplies what stands before it by the radix and adds its
/// own value; a character that is no digit makes the whole no number.
pub proof fn digits_count_by_place(digits: Seq<char>, c: char, radix: int)
    ensures
        digits_value(digits.push(c), radix) == (match (digits_value(digits, radix), digit_value(c, radix)) {
            (Some(high), Some(low)) => Some(high * radix + low),
            _ => None,
        }),
        digits_value(Seq::<char>::empty(), radix) == Some(0int),
{
    assert(digits.push(c).drop_last() =~= digits);
}

/// A number is digits, at least one, with one sign in front of them or none.
pub proof fn numbers_have_one_sign(digits: Seq<char>, radix: int)
    requires
        digits.len() > 0,
        digits[0] != '+',
        digits[0] != '-',
    ensures
        unsigned_value(digits, radix) == digits_value(digits, radix),
        unsigned_value(seq!['+'] + digits, radix) == digits_value(digits, radix),
        signed_value(digits, radix) == digits_value(digits, radix),
        signed_value(seq!['+'] + digits, radix) == digits_value(digits, radix),
        signed_value(seq!['-'] + digits, radix) == (match digits_value(digits, radix) {
            Some(n) => Some(-n),
            None => None,
        }),
        unsigned_value(Seq::<char>::empty(), radix) is None,
        unsigned_value(seq!['+'], radix) is None,
        signed_value(seq!['-'], radix) is None,
{
    assert((seq!['+'] + digits).drop_first() =~= digits);
    assert((seq!['-'] + digits).drop_first() =~= digits);
    assert(seq!['+'].drop_first().len() == 0);
    assert(seq!['-'].drop_first().len() == 0);
}

/// Writing bytes in hexadecimal works piece by piece, with two lower-case digits
/// for each byte.
pub proof fn hex_is_piecewise(a: Seq<u8>, b: Seq<u8>, byte: u8)
    ensures
        hex(a + b) == hex(a) + hex(b),
        hex(seq![byte]).len() == 2,
        digits_value(hex(seq![byte]), 16) == Some(byte as int),
        forall|i: int| 0 <= i < 2 ==> !(65 <= (#[trigger] hex(seq![byte])[i]) as int <= 90),
    decreases b.len(),
{
    if b.len() == 0 {
        assert(a + b =~= a);
        assert(hex(a) + hex(b) =~= hex(a));
        reveal_with_fuel(hex, 2);
        assert(seq![byte].drop_last() =~= Seq::<u8>::empty());
        let text = hex(seq![byte]);
        reveal_with_fuel(digits_value, 3);
        assert(text.drop_last().drop_last() =~= Seq::<char>::empty());
        assert(byte as int / 16 * 16 + byte as int % 16 == byte as int);
    } else {
        hex_is_piecewise(a, b.drop_last(), byte);
        assert((a + b).drop_last() =~= a + b.drop_last());
        assert(hex(a + b) =~= hex(a) + hex(b));
    }
}

/// The first difference decides which text comes first; a text comes before
/// every longer one that begins with it.
pub proof fn first_difference_decides(common: Seq<char>, x: char, a: Seq<char>, y: char, b: Seq<char>)
    ensures
        x != y ==> text_before(common + seq![x] + a, common + seq![y] + b) == ((x as int) < y as int),
        text_before(common, common + seq![y] + b),
        !text_before(common + seq![y] + b, common),
    decreases common.len(),
{
    if common.len() == 0 {
        assert(common + seq![x] + a =~= seq![x] + a);
        assert(common + seq![y] + b =~= seq![y] + b);
    } else {
        let rest = common.drop_first();
        first_difference_decides(rest, x, a, y, b);
        assert((common + seq![x] + a).drop_first() =~= rest + seq![x] + a);
        assert((common + seq![y] + b).drop_first() =~= rest + seq![y] + b);
    }
}

} // verus!
