//! Numbers as text: decimal and hexadecimal notation, written and read.
use crate::text::chars_of;
use vstd::prelude::*;

verus! {

/// What a digit of a number in the given radix stands for, if it is one.
pub open spec fn digit_value(c: char, radix: int) -> Option<int> {
    let value = if '0' <= c <= '9' {
        c as int - '0' as int
    } else if 'a' <= c <= 'z' {
        c as int - 'a' as int + 10
    } else if 'A' <= c <= 'Z' {
        c as int - 'A' as int + 10
    } else {
        radix
    };
    if value < radix {
        Some(value)
    } else {
        None
    }
}

/// The number that the digits denote, the most significant first; nothing if
/// some character is no digit.
pub open spec fn digits_value(s: Seq<char>, radix: int) -> Option<int>
    decreases s.len(),
{
    if s.len() == 0 {
        Some(0)
    } else {
        match (digits_value(s.drop_last(), radix), digit_value(s.last(), radix)) {
            (Some(high), Some(low)) => Some(high * radix + low),
            _ => None,
        }
    }
}

/// The number that digits denote where at least one is there.
pub open spec fn numeral_value(s: Seq<char>, radix: int) -> Option<int> {
    if s.len() == 0 {
        None
    } else {
        digits_value(s, radix)
    }
}

/// The number that a text denotes: digits, after a plus sign or none.
pub open spec fn unsigned_value(s: Seq<char>, radix: int) -> Option<int> {
    if s.len() > 0 && s[0] == '+' {
        numeral_value(s.drop_first(), radix)
    } else {
        numeral_value(s, radix)
    }
}

/// The number that a text denotes: digits, after a plus or minus sign or none.
pub open spec fn signed_value(s: Seq<char>, radix: int) -> Option<int> {
    if s.len() > 0 && s[0] == '-' {
        match numeral_value(s.drop_first(), radix) {
            Some(value) => Some(-value),
            None => None,
        }
    } else {
        unsigned_value(s, radix)
    }
}

/// The number, if there is one and it does not exceed the limit.
pub open spec fn at_most(value: Option<int>, limit: int) -> Option<int> {
    match value {
        Some(v) if v <= limit => Some(v),
        _ => None,
    }
}

/// The decimal digit for a number below ten.
pub open spec fn digit_char(n: nat) -> char {
    ('0' as u32 + n) as char
}

/// A number in decimal notation, without leading zeros.
pub open spec fn decimal(n: nat) -> Seq<char>
    decreases n,
{
    if n < 10 {
        seq![digit_char(n)]
    } else {
        decimal(n / 10).push(digit_char(n % 10))
    }
}

/// That many zeros.
pub open spec fn zeros(count: nat) -> Seq<char> {
    Seq::new(count, |i: int| '0')
}

/// A number in decimal notation, filled with zeros in front up to a width.
pub open spec fn padded(n: nat, width: nat) -> Seq<char> {
    let digits = decimal(n);
    if digits.len() < width {
        zeros((width - digits.len()) as nat) + digits
    } else {
        digits
    }
}

/// The lower-case hexadecimal digit for a number below sixteen.
pub open spec fn hex_char(n: int) -> char {
    if n < 10 {
        ('0' as u32 + n) as char
    } else {
        ('a' as u32 + n - 10) as char
    }
}

/// Each byte as two lower-case hexadecimal digits, in order.
pub open spec fn hex(bytes: Seq<u8>) -> Seq<char>
    decreases bytes.len(),
{
    if bytes.len() == 0 {
        Seq::empty()
    } else {
        hex(bytes.drop_last()).push(hex_char(bytes.last() as int / 16)).push(
            hex_char(bytes.last() as int % 16),
        )
    }
}

/// What a digit of a number in the given radix stands for, if it is one.
fn value_of_digit(c: char, radix: u32) -> (value: Option<u32>)
    requires
        radix <= 36,
    ensures
        match value {
            Some(v) => digit_value(c, radix as int) == Some(v as int),
            None => digit_value(c, radix as int) is None,
        },
        value matches Some(v) ==> v < radix,
{
    let value: u32 = if '0' <= c && c <= '9' {
        c as u32 - '0' as u32
    } else if 'a' <= c && c <= 'z' {
        c as u32 - 'a' as u32 + 10
    } else if 'A' <= c && c <= 'Z' {
        c as u32 - 'A' as u32 + 10
    } else {
        radix
    };
    if value < radix {
        Some(value)
    } else {
        None
    }
}

/// The number that the characters from `from` on denote, up to a limit.
fn read_numeral(chars: &Vec<char>, from: usize, radix: u32, limit: u64) -> (value: Option<u64>)
    requires
        from <= chars@.len(),
        2 <= radix <= 36,
    ensures
        match value {
            Some(v) => at_most(numeral_value(chars@.skip(from as int), radix as int), limit as int)
                == Some(v as int),
            None => at_most(numeral_value(chars@.skip(from as int), radix as int), limit as int) is None,
        },
{
    let ghost digits = chars@.skip(from as int);
    if from == chars.len() {
        return None;
    }
    let mut total: u128 = 0;
    let mut too_large = false;
    let mut i: usize = from;
    while i < chars.len()
        invariant
            from <= i <= chars@.len(),
            2 <= radix <= 36,
            digits == chars@.skip(from as int),
            digits_value(digits.take(i - from), radix as int) matches Some(v) && v >= 0 && (too_large
                <==> v > limit) && (!too_large ==> v == total),
            total <= limit,
        decreases chars@.len() - i,
    {
        let ghost before = digits.take(i - from);
        let digit = value_of_digit(chars[i], radix);
        proof {
            assert(digits.take(i + 1 - from).drop_last() =~= before);
            assert(digits.take(i + 1 - from).last() == chars@[i as int]);
        }
        match digit {
            None => {
                proof {
                    no_digit_no_value(digits, i - from, radix as int);
                }
                return None;
            },
            Some(d) => {
                proof {
                    let v = digits_value(before, radix as int)->0;
                    assert(v * radix + d > limit || v <= limit) by (nonlinear_arith)
                        requires
                            v >= 0,
                            radix >= 2,
                            d >= 0,
                    ;
                    assert(0 <= v * radix) by (nonlinear_arith)
                        requires
                            v >= 0,
                            radix >= 2,
                    ;
                }
                if !too_large {
                    proof {
                        assert(total * radix <= 0xffff_ffff_ffff_ffff * 36) by (nonlinear_arith)
                            requires
                                total <= 0xffff_ffff_ffff_ffff,
                                radix <= 36,
                        ;
                    }
                    let next: u128 = total * (radix as u128) + (d as u128);
                    if next <= limit as u128 {
                        total = next;
                    } else {
                        too_large = true;
                    }
                }
            },
        }
        i += 1;
    }
    proof {
        assert(digits.take(digits.len() as int) =~= digits);
    }
    if too_large {
        None
    } else {
        Some(total as u64)
    }
}

/// Text that holds something else than a digit denotes no number.
proof fn no_digit_no_value(s: Seq<char>, at: int, radix: int)
    requires
        0 <= at < s.len(),
        digit_value(s[at], radix) is None,
    ensures
        digits_value(s, radix) is None,
    decreases s.len(),
{
    if at < s.len() - 1 {
        no_digit_no_value(s.drop_last(), at, radix);
    }
}

/// The number that the text denotes, if it denotes one of at most `limit`.
pub fn parse_unsigned(text: &str, radix: u32, limit: u64) -> (value: Option<u64>)
    requires
        2 <= radix <= 36,
    ensures
        match value {
            Some(v) => at_most(unsigned_value(text@, radix as int), limit as int) == Some(v as int),
            None => at_most(unsigned_value(text@, radix as int), limit as int) is None,
        },
{
    let chars = chars_of(text);
    proof {
        assert(text@.skip(0) =~= text@);
        if text@.len() > 0 {
            assert(text@.skip(1) =~= text@.drop_first());
        }
    }
    if chars.len() > 0 && chars[0] == '+' {
        read_numeral(&chars, 1, radix, limit)
    } else {
        read_numeral(&chars, 0, radix, limit)
    }
}

/// The number that the text denotes in decimal notation, if an `i64` holds it.
pub fn parse_signed(text: &str) -> (value: Option<i64>)
    ensures
        match value {
            Some(v) => signed_value(text@, 10) == Some(v as int),
            None => match signed_value(text@, 10) {
                Some(v) => !(i64::MIN <= v <= i64::MAX),
                None => true,
            },
        },
{
    let chars = chars_of(text);
    proof {
        if text@.len() > 0 {
            assert(text@.skip(1) =~= text@.drop_first());
            digits_value_is_natural(text@.drop_first(), 10);
        }
    }
    if chars.len() > 0 && chars[0] == '-' {
        match read_numeral(&chars, 1, 10, 0x8000_0000_0000_0000) {
            Some(v) => if v == 0x8000_0000_0000_0000 {
                Some(i64::MIN)
            } else {
                Some(-(v as i64))
            },
            None => None,
        }
    } else {
        proof {
            digits_value_is_natural(text@, 10);
        }
        match parse_unsigned(text, 10, 0x7fff_ffff_ffff_ffff) {
            Some(v) => Some(v as i64),
            None => None,
        }
    }
}

/// Digits never denote a negative number.
pub proof fn digits_value_is_natural(s: Seq<char>, radix: int)
    requires
        radix >= 0,
    ensures
        digits_value(s, radix) matches Some(v) ==> v >= 0,
    decreases s.len(),
{
    if s.len() > 0 {
        digits_value_is_natural(s.drop_last(), radix);
        if let (Some(high), Some(low)) = (
            digits_value(s.drop_last(), radix),
            digit_value(s.last(), radix),
        ) {
            assert(high * radix >= 0) by (nonlinear_arith)
                requires
                    high >= 0,
                    radix >= 0,
            ;
        }
    }
}

/// Appends a number in decimal notation.
pub fn append_decimal(text: &mut String, n: u64)
    ensures
        final(text)@ == old(text)@ + decimal(n as nat),
    decreases n,
{
    if n < 10 {
        text.push((48 + n as u8) as char);
        proof {
            assert(text@ =~= old(text)@ + decimal(n as nat));
        }
    } else {
        append_decimal(text, n / 10);
        text.push((48 + (n % 10) as u8) as char);
        proof {
            assert(text@ =~= old(text)@ + decimal(n as nat));
        }
    }
}

/// A number in decimal notation.
pub fn decimal_text(n: u64) -> (text: String)
    ensures
        text@ == decimal(n as nat),
{
    let mut text = String::new();
    append_decimal(&mut text, n);
    proof {
        assert(text@ =~= decimal(n as nat));
    }
    text
}

/// Appends a number in decimal notation, filled with zeros up to a width.
pub fn append_padded(text: &mut String, n: u64, width: usize)
    ensures
        final(text)@ == old(text)@ + padded(n as nat, width as nat),
{
    let digits = decimal_text(n);
    let count: usize = chars_of(digits.as_str()).len();
    let ghost start = text@;
    if count < width {
        let mut i: usize = 0;
        while i < width - count
            invariant
                i <= width - count,
                count < width,
                text@ == start + zeros(i as nat),
            decreases width - count - i,
        {
            text.push('0');
            i += 1;
            proof {
                assert(text@ =~= start + zeros(i as nat));
            }
        }
    }
    text.append(digits.as_str());
    proof {
        assert(text@ =~= start + padded(n as nat, width as nat));
    }
}

/// The lower-case hexadecimal digit for a number below sixteen.
fn char_of_nibble(n: u8) -> (c: char)
    requires
        n < 16,
    ensures
        c == hex_char(n as int),
{
    if n < 10 {
        (48 + n) as char
    } else {
        (87 + n) as char
    }
}

/// Each byte as two lower-case hexadecimal digits, in order.
pub fn hex_text(bytes: &Vec<u8>) -> (text: String)
    ensures
        text@ == hex(bytes@),
{
    let mut text = String::new();
    let mut i: usize = 0;
    while i < bytes.len()
        invariant
            i <= bytes@.len(),
            text@ == hex(bytes@.take(i as int)),
        decreases bytes@.len() - i,
    {
        let b: u8 = bytes[i];
        text.push(char_of_nibble(b / 16));
        text.push(char_of_nibble(b % 16));
        i += 1;
        proof {
            assert(bytes@.take(i as int).drop_last() =~= bytes@.take(i - 1));
        }
    }
    proof {
        assert(bytes@.take(bytes@.len() as int) =~= bytes@);
    }
    text
}

/// Reading the decimal notation of a number gives the number back.
pub proof fn decimal_reads_back(n: nat)
    ensures
        digits_value(decimal(n), 10) == Some(n as int),
        unsigned_value(decimal(n), 10) == Some(n as int),
        decimal(n).len() > 0,
        forall|i: int| 0 <= i < decimal(n).len() ==> '0' <= #[trigger] decimal(n)[i] <= '9',
    decreases n,
{
    if n < 10 {
        assert(decimal(n).drop_last() =~= Seq::<char>::empty());
        assert(digits_value(Seq::<char>::empty(), 10) == Some(0int));
        assert(digit_value(digit_char(n), 10) == Some(n as int));
    } else {
        decimal_reads_back(n / 10);
        assert(decimal(n).drop_last() =~= decimal(n / 10));
        assert(digit_value(digit_char(n % 10), 10) == Some((n % 10) as int));
    }
}

/// The hexadecimal notation has two digits for each byte.
pub proof fn hex_length(bytes: Seq<u8>)
    ensures
        hex(bytes).len() == 2 * bytes.len(),
    decreases bytes.len(),
{
    if bytes.len() > 0 {
        hex_length(bytes.drop_last());
    }
}

} // verus!
