//! Text primitives: character classes, trimming, case folding, searching and
//! splitting, each stated over the sequence of characters that a string holds.
use vstd::prelude::*;
use vstd::utf8::*;

verus! {

/// `String::push` appends one character to the end of the string.
pub assume_specification[ String::push ](text: &mut String, c: char)
    ensures
        final(text)@ == old(text)@.push(c),
;

/// The characters with the Unicode property `White_Space`.
pub open spec fn is_white_space(c: char) -> bool {
    ||| '\u{9}' <= c <= '\u{d}'
    ||| c == ' '
    ||| c == '\u{85}'
    ||| c == '\u{a0}'
    ||| c == '\u{1680}'
    ||| '\u{2000}' <= c <= '\u{200a}'
    ||| c == '\u{2028}'
    ||| c == '\u{2029}'
    ||| c == '\u{202f}'
    ||| c == '\u{205f}'
    ||| c == '\u{3000}'
}

/// Whether every character of the text is white space (true of empty text).
pub open spec fn is_blank(s: Seq<char>) -> bool {
    forall|i: int| 0 <= i < s.len() ==> is_white_space(#[trigger] s[i])
}

/// The text without its leading white space.
pub open spec fn trim_start(s: Seq<char>) -> Seq<char>
    decreases s.len(),
{
    if s.len() > 0 && is_white_space(s.first()) {
        trim_start(s.drop_first())
    } else {
        s
    }
}

/// The text without its trailing white space.
pub open spec fn trim_end(s: Seq<char>) -> Seq<char>
    decreases s.len(),
{
    if s.len() > 0 && is_white_space(s.last()) {
        trim_end(s.drop_last())
    } else {
        s
    }
}

/// The text without its leading and trailing white space.
pub open spec fn trim(s: Seq<char>) -> Seq<char> {
    trim_end(trim_start(s))
}

/// Whether the character has the Unicode property `White_Space`.
pub fn white_space(c: char) -> (b: bool)
    ensures
        b == is_white_space(c),
{
    ('\u{9}' <= c && c <= '\u{d}') || c == ' ' || c == '\u{85}' || c == '\u{a0}' || c == '\u{1680}'
        || ('\u{2000}' <= c && c <= '\u{200a}') || c == '\u{2028}' || c == '\u{2029}' || c
        == '\u{202f}' || c == '\u{205f}' || c == '\u{3000}'
}

/// The characters of the text, in order.
pub fn chars_of(text: &str) -> (chars: Vec<char>)
    ensures
        chars@ == text@,
{
    let mut chars: Vec<char> = Vec::new();
    for c in it: text.chars()
        invariant
            chars@ == it.seq().take(it.index()),
            it.seq() == text@,
    {
        proof {
            assert(it.seq().take(it.index() + 1) == it.seq().take(it.index()).push(it.seq()[it.index()]));
        }
        chars.push(c);
    }
    proof {
        assert(text@.take(text@.len() as int) == text@);
    }
    chars
}

/// The text made of the characters from `from` up to, not including, `to`.
pub fn text_between(chars: &Vec<char>, from: usize, to: usize) -> (text: String)
    requires
        from <= to <= chars@.len(),
    ensures
        text@ == chars@.subrange(from as int, to as int),
{
    let mut text = String::new();
    let mut i: usize = from;
    while i < to
        invariant
            from <= i <= to <= chars@.len(),
            text@ == chars@.subrange(from as int, i as int),
        decreases to - i,
    {
        text.push(chars[i]);
        i += 1;
        proof {
            assert(chars@.subrange(from as int, i as int) == chars@.subrange(from as int, i - 1).push(chars@[i - 1]));
        }
    }
    text
}

/// Whether two texts hold the same characters.
pub fn same_text(a: &str, b: &str) -> (same: bool)
    ensures
        same == (a@ == b@),
{
    let x = a.as_bytes();
    let y = b.as_bytes();
    proof {
        encode_utf8_decode_utf8(a@);
        encode_utf8_decode_utf8(b@);
    }
    if x.len() != y.len() {
        return false;
    }
    let mut i: usize = 0;
    while i < x.len()
        invariant
            i <= x@.len(),
            x@.len() == y@.len(),
            x@ == encode_utf8(a@),
            y@ == encode_utf8(b@),
            forall|j: int| 0 <= j < i ==> x@[j] == y@[j],
        decreases x@.len() - i,
    {
        if x[i] != y[i] {
            return false;
        }
        i += 1;
    }
    proof {
        assert(x@ =~= y@);
    }
    true
}

/// What trimming leaves out at the front and at the back is white space, and
/// what it keeps neither starts nor ends with any.
pub proof fn trim_is_subrange(s: Seq<char>, from: int, to: int)
    requires
        0 <= from <= to <= s.len(),
        is_blank(s.take(from)),
        is_blank(s.skip(to)),
        from < to ==> !is_white_space(s[from]) && !is_white_space(s[to - 1]),
    ensures
        trim(s) == s.subrange(from, to),
    decreases s.len(),
{
    if from > 0 {
        assert(is_white_space(s.take(from)[0]));
        let t = s.drop_first();
        assert forall|i: int| 0 <= i < t.take(from - 1).len() implies is_white_space(#[trigger] t.take(from - 1)[i]) by {
            assert(s.take(from)[i + 1] == t.take(from - 1)[i]);
        }
        assert(t.skip(to - 1) =~= s.skip(to));
        trim_is_subrange(t, from - 1, to - 1);
        assert(t.subrange(from - 1, to - 1) =~= s.subrange(from, to));
    } else if from == to {
        assert(s.skip(to) =~= s);
        trim_of_blank(s);
        assert(s.subrange(from, to) =~= Seq::<char>::empty());
    } else {
        trim_end_is_take(s, to);
        assert(s.take(to) =~= s.subrange(0, to));
    }
}

proof fn trim_end_is_take(s: Seq<char>, to: int)
    requires
        0 < to <= s.len(),
        is_blank(s.skip(to)),
        !is_white_space(s[to - 1]),
    ensures
        trim_end(s) == s.take(to),
    decreases s.len(),
{
    if to < s.len() {
        assert(s.skip(to)[s.len() - to - 1] == s.last());
        let t = s.drop_last();
        assert forall|i: int| 0 <= i < t.skip(to).len() implies is_white_space(#[trigger] t.skip(to)[i]) by {
            assert(s.skip(to)[i] == t.skip(to)[i]);
        }
        trim_end_is_take(t, to);
        assert(t.take(to) =~= s.take(to));
    } else {
        assert(s.take(to) =~= s);
    }
}

/// Trimming blank text leaves nothing.
pub proof fn trim_of_blank(s: Seq<char>)
    requires
        is_blank(s),
    ensures
        trim(s) == Seq::<char>::empty(),
    decreases s.len(),
{
    if s.len() > 0 {
        assert(is_white_space(s[0]));
        assert forall|i: int| 0 <= i < s.drop_first().len() implies is_white_space(#[trigger] s.drop_first()[i]) by {
            assert(s[i + 1] == s.drop_first()[i]);
        }
        trim_of_blank(s.drop_first());
    } else {
        assert(s =~= Seq::<char>::empty());
    }
}

/// The first and the last position between which trimming keeps the text.
fn trim_bounds(chars: &Vec<char>) -> (bounds: (usize, usize))
    ensures
        bounds.0 <= bounds.1 <= chars@.len(),
        trim(chars@) == chars@.subrange(bounds.0 as int, bounds.1 as int),
        bounds.0 == bounds.1 <==> is_blank(chars@),
{
    let mut from: usize = 0;
    while from < chars.len() && white_space(chars[from])
        invariant
            from <= chars@.len(),
            forall|i: int| 0 <= i < from ==> is_white_space(#[trigger] chars@[i]),
        decreases chars@.len() - from,
    {
        from += 1;
    }
    let mut to: usize = chars.len();
    while to > from && white_space(chars[to - 1])
        invariant
            from <= to <= chars@.len(),
            forall|i: int| to <= i < chars@.len() ==> is_white_space(#[trigger] chars@[i]),
        decreases to - from,
    {
        to -= 1;
    }
    proof {
        assert(is_blank(chars@.take(from as int)));
        assert(is_blank(chars@.skip(to as int)));
        trim_is_subrange(chars@, from as int, to as int);
        if from < to {
            assert(!is_white_space(chars@[from as int]));
        }
    }
    (from, to)
}

/// The text without its leading and trailing white space.
pub fn trim_text(text: &str) -> (trimmed: String)
    ensures
        trimmed@ == trim(text@),
{
    let chars = chars_of(text);
    let (from, to) = trim_bounds(&chars);
    text_between(&chars, from, to)
}

/// Whether the text is empty or white space only.
pub fn blank_text(text: &str) -> (b: bool)
    ensures
        b == is_blank(text@),
{
    let chars = chars_of(text);
    let (from, to) = trim_bounds(&chars);
    from == to
}

/// The lower-case form of an ASCII letter; any other character itself.
pub open spec fn ascii_lower_char(c: char) -> char {
    if 'A' <= c <= 'Z' {
        (c as u32 + 32) as char
    } else {
        c
    }
}

/// The upper-case form of an ASCII letter; any other character itself.
pub open spec fn ascii_upper_char(c: char) -> char {
    if 'a' <= c <= 'z' {
        (c as u32 - 32) as char
    } else {
        c
    }
}

/// The text with its ASCII letters in lower case.
pub open spec fn ascii_lower(s: Seq<char>) -> Seq<char> {
    s.map_values(|c: char| ascii_lower_char(c))
}

/// The text with its ASCII letters in upper case.
pub open spec fn ascii_upper(s: Seq<char>) -> Seq<char> {
    s.map_values(|c: char| ascii_upper_char(c))
}

/// The text with its ASCII letters in lower case.
pub fn lower_text(text: &str) -> (lowered: String)
    ensures
        lowered@ == ascii_lower(text@),
{
    let chars = chars_of(text);
    let mut lowered = String::new();
    let mut i: usize = 0;
    while i < chars.len()
        invariant
            i <= chars@.len(),
            lowered@ == ascii_lower(chars@.take(i as int)),
        decreases chars@.len() - i,
    {
        let c: char = chars[i];
        if 'A' <= c && c <= 'Z' {
            lowered.push((c as u8 + 32) as char);
        } else {
            lowered.push(c);
        }
        i += 1;
        proof {
            assert(ascii_lower(chars@.take(i as int)) =~= ascii_lower(chars@.take(i - 1)).push(ascii_lower_char(c)));
        }
    }
    proof {
        assert(chars@.take(chars@.len() as int) =~= chars@);
    }
    lowered
}

/// The text with its ASCII letters in upper case.
pub fn upper_text(text: &str) -> (raised: String)
    ensures
        raised@ == ascii_upper(text@),
{
    let chars = chars_of(text);
    let mut raised = String::new();
    let mut i: usize = 0;
    while i < chars.len()
        invariant
            i <= chars@.len(),
            raised@ == ascii_upper(chars@.take(i as int)),
        decreases chars@.len() - i,
    {
        let c: char = chars[i];
        if 'a' <= c && c <= 'z' {
            raised.push((c as u8 - 32) as char);
        } else {
            raised.push(c);
        }
        i += 1;
        proof {
            assert(ascii_upper(chars@.take(i as int)) =~= ascii_upper(chars@.take(i - 1)).push(ascii_upper_char(c)));
        }
    }
    proof {
        assert(chars@.take(chars@.len() as int) =~= chars@);
    }
    raised
}

/// Whether `part` stands in `s` at position `at`.
pub open spec fn stands_at(s: Seq<char>, part: Seq<char>, at: int) -> bool {
    &&& 0 <= at
    &&& at + part.len() <= s.len()
    &&& s.subrange(at, at + part.len()) == part
}

/// Whether `part` stands somewhere in `s`.
pub open spec fn has_part(s: Seq<char>, part: Seq<char>) -> bool {
    exists|at: int| stands_at(s, part, at)
}

/// Whether `s` begins with `part`.
pub open spec fn begins_with(s: Seq<char>, part: Seq<char>) -> bool {
    stands_at(s, part, 0)
}

/// Whether `s` ends with `part`.
pub open spec fn ends_in(s: Seq<char>, part: Seq<char>) -> bool {
    stands_at(s, part, s.len() - part.len())
}

/// Whether the characters of `part` stand in `chars` at position `at`.
fn stands_there(chars: &Vec<char>, part: &Vec<char>, at: usize) -> (b: bool)
    ensures
        b == stands_at(chars@, part@, at as int),
{
    if part.len() > chars.len() || at > chars.len() - part.len() {
        return false;
    }
    let total: usize = chars.len();
    let mut i: usize = 0;
    while i < part.len()
        invariant
            i <= part@.len(),
            at + part@.len() <= total == chars@.len(),
            forall|j: int| 0 <= j < i ==> chars@[at + j] == part@[j],
        decreases part@.len() - i,
    {
        if chars[at + i] != part[i] {
            proof {
                assert(chars@.subrange(at as int, at + part@.len())[i as int] != part@[i as int]);
            }
            return false;
        }
        i += 1;
    }
    proof {
        assert(chars@.subrange(at as int, at + part@.len()) =~= part@);
    }
    true
}

/// Whether `part` stands somewhere in `text`.
pub fn contains_text(text: &str, part: &str) -> (b: bool)
    ensures
        b == has_part(text@, part@),
{
    let chars = chars_of(text);
    let wanted = chars_of(part);
    if wanted.len() > chars.len() {
        return false;
    }
    let last: usize = chars.len() - wanted.len();
    let mut at: usize = 0;
    while at < last
        invariant
            chars@ == text@,
            wanted@ == part@,
            at <= last,
            forall|j: int| 0 <= j < at ==> !stands_at(text@, part@, j),
        decreases last - at,
    {
        if stands_there(&chars, &wanted, at) {
            return true;
        }
        at += 1;
    }
    stands_there(&chars, &wanted, last)
}

/// Whether `text` begins with `part`.
pub fn starts_with_text(text: &str, part: &str) -> (b: bool)
    ensures
        b == begins_with(text@, part@),
{
    let chars = chars_of(text);
    let wanted = chars_of(part);
    stands_there(&chars, &wanted, 0)
}

/// Whether `text` ends with `part`.
pub fn ends_with_text(text: &str, part: &str) -> (b: bool)
    ensures
        b == ends_in(text@, part@),
{
    let chars = chars_of(text);
    let wanted = chars_of(part);
    if wanted.len() > chars.len() {
        return false;
    }
    stands_there(&chars, &wanted, chars.len() - wanted.len())
}

/// The text with each occurrence of a character replaced by another text.
pub open spec fn replaced(s: Seq<char>, c: char, with: Seq<char>) -> Seq<char>
    decreases s.len(),
{
    if s.len() == 0 {
        Seq::empty()
    } else if s.last() == c {
        replaced(s.drop_last(), c, with) + with
    } else {
        replaced(s.drop_last(), c, with).push(s.last())
    }
}

/// The text with each occurrence of a character replaced by another text.
pub fn replace_char(text: &str, c: char, with: &str) -> (result: String)
    ensures
        result@ == replaced(text@, c, with@),
{
    let chars = chars_of(text);
    let mut result = String::new();
    let mut i: usize = 0;
    proof {
        assert(result@ =~= replaced(chars@.take(0), c, with@));
    }
    while i < chars.len()
        invariant
            i <= chars@.len(),
            result@ == replaced(chars@.take(i as int), c, with@),
        decreases chars@.len() - i,
    {
        proof {
            assert(chars@.take(i + 1).drop_last() =~= chars@.take(i as int));
        }
        if chars[i] == c {
            result.append(with);
        } else {
            result.push(chars[i]);
        }
        i += 1;
    }
    proof {
        assert(chars@.take(chars@.len() as int) =~= chars@);
    }
    result
}

} // verus!
