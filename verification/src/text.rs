//! Text building blocks: decimal and hexadecimal numerals and splitting.
use vstd::prelude::*;
use crate::bytes::bytes_equal;

verus! {

/// The decimal digit of `n`, for `n` below ten.
pub open spec fn digit_char(n: nat) -> char {
    ('0' as u8 + n) as char
}

/// `n` in decimal, without leading zeros.
pub open spec fn decimal(n: nat) -> Seq<char>
    decreases n,
{
    if n < 10 {
        seq![digit_char(n)]
    } else {
        decimal(n / 10).push(digit_char(n % 10))
    }
}

/// The lower-case hexadecimal digit of `n`, for `n` below sixteen.
pub open spec fn hex_char(n: nat) -> char {
    if n < 10 {
        ('0' as u8 + n) as char
    } else {
        ('a' as u8 + (n - 10)) as char
    }
}

/// Two lower-case hexadecimal digits.
pub open spec fn hex_byte(b: u8) -> Seq<char> {
    seq![hex_char(b as nat / 16), hex_char(b as nat % 16)]
}

/// Every byte as two lower-case hexadecimal digits.
pub open spec fn hex(bytes: Seq<u8>) -> Seq<char>
    decreases bytes.len(),
{
    if bytes.len() == 0 {
        Seq::empty()
    } else {
        hex(bytes.drop_last()) + hex_byte(bytes.last())
    }
}

/// The value of a hexadecimal digit of either case.
pub open spec fn hex_digit_value(c: char) -> Option<nat> {
    if '0' <= c && c <= '9' {
        Some((c as nat - '0' as nat) as nat)
    } else if 'a' <= c && c <= 'f' {
        Some((c as nat - 'a' as nat + 10) as nat)
    } else if 'A' <= c && c <= 'F' {
        Some((c as nat - 'A' as nat + 10) as nat)
    } else {
        None
    }
}

fn digit_text(n: u8) -> (text: &'static str)
    requires
        n < 16,
    ensures
        text@ == seq![hex_char(n as nat)],
{
    proof {
        reveal_strlit("0");
        reveal_strlit("1");
        reveal_strlit("2");
        reveal_strlit("3");
        reveal_strlit("4");
        reveal_strlit("5");
        reveal_strlit("6");
        reveal_strlit("7");
        reveal_strlit("8");
        reveal_strlit("9");
        reveal_strlit("a");
        reveal_strlit("b");
        reveal_strlit("c");
        reveal_strlit("d");
        reveal_strlit("e");
        reveal_strlit("f");
    }
    let text = match n {
        0 => "0",
        1 => "1",
        2 => "2",
        3 => "3",
        4 => "4",
        5 => "5",
        6 => "6",
        7 => "7",
        8 => "8",
        9 => "9",
        10 => "a",
        11 => "b",
        12 => "c",
        13 => "d",
        14 => "e",
        _ => "f",
    };
    assert(text@ =~= seq![hex_char(n as nat)]);
    text
}

/// Appends `n` in decimal.
pub fn put_decimal(out: &mut String, n: u64)
    ensures
        final(out)@ == old(out)@ + decimal(n as nat),
    decreases n,
{
    if n >= 10 {
        put_decimal(out, n / 10);
    }
    out.append(digit_text((n % 10) as u8));
    assert(out@ =~= old(out)@ + decimal(n as nat));
}

/// Appends `b` as two hexadecimal digits.
pub fn put_hex_byte(out: &mut String, b: u8)
    ensures
        final(out)@ == old(out)@ + hex_byte(b),
{
    out.append(digit_text(b / 16));
    out.append(digit_text(b % 16));
    assert(out@ =~= old(out)@ + hex_byte(b));
}

/// The bytes as lower-case hexadecimal.
pub fn to_hex(bytes: &[u8]) -> (text: String)
    ensures
        text@ == hex(bytes@),
{
    let mut out = String::new();
    let mut i: usize = 0;
    while i < bytes.len()
        invariant
            i <= bytes@.len(),
            out@ == hex(bytes@.take(i as int)),
        decreases bytes@.len() - i,
    {
        put_hex_byte(&mut out, bytes[i]);
        assert(bytes@.take(i + 1).drop_last() =~= bytes@.take(i as int));
        i = i + 1;
    }
    assert(bytes@.take(i as int) =~= bytes@);
    out
}

/// Whether two texts are the same.
pub fn same_text(a: &str, b: &str) -> (same: bool)
    ensures
        same == (a@ == b@),
{
    proof {
        vstd::utf8::encode_utf8_decode_utf8(a@);
        vstd::utf8::encode_utf8_decode_utf8(b@);
    }
    bytes_equal(a.as_bytes(), b.as_bytes())
}

/// The value of a hexadecimal digit, if it is one.
pub fn hex_digit(c: char) -> (value: Option<u8>)
    ensures
        value matches Some(v) ==> v < 16 && hex_digit_value(c) == Some(v as nat),
        value is None ==> hex_digit_value(c) is None,
{
    if '0' <= c && c <= '9' {
        Some((c as u32 - '0' as u32) as u8)
    } else if 'a' <= c && c <= 'f' {
        Some((c as u32 - 'a' as u32 + 10) as u8)
    } else if 'A' <= c && c <= 'F' {
        Some((c as u32 - 'A' as u32 + 10) as u8)
    } else {
        None
    }
}

/// The pieces of `s` between the occurrences of `sep`.
pub open spec fn split_on(s: Seq<char>, sep: char) -> Seq<Seq<char>>
    decreases s.len(),
{
    if s.len() == 0 {
        seq![Seq::<char>::empty()]
    } else {
        let front = split_on(s.drop_last(), sep);
        if s.last() == sep {
            front.push(Seq::empty())
        } else {
            front.drop_last().push(front.last().push(s.last()))
        }
    }
}

/// Texts by their characters.
pub open spec fn texts(parts: Seq<String>) -> Seq<Seq<char>> {
    Seq::new(parts.len(), |i: int| parts[i]@)
}

pub proof fn lemma_split_nonempty(s: Seq<char>, sep: char)
    ensures
        split_on(s, sep).len() > 0,
    decreases s.len(),
{
    if s.len() > 0 {
        lemma_split_nonempty(s.drop_last(), sep);
    }
}

/// A text without a separator is one piece.
pub proof fn lemma_split_piece(s: Seq<char>, sep: char)
    requires
        !s.contains(sep),
    ensures
        split_on(s, sep) == seq![s],
    decreases s.len(),
{
    if s.len() > 0 {
        let front = s.drop_last();
        assert forall|i: int| 0 <= i < front.len() implies front[i] != sep by {
            assert(s[i] == front[i]);
        }
        assert(s[s.len() - 1] == s.last());
        lemma_split_piece(front, sep);
        assert(seq![front].drop_last().push(front.push(s.last())) =~= seq![s]) by {
            assert(front.push(s.last()) =~= s);
        }
    } else {
        assert(s =~= Seq::empty());
    }
}

/// A piece joined to a text by a separator is one more piece of it.
pub proof fn lemma_split_joined(s: Seq<char>, piece: Seq<char>, sep: char)
    requires
        !piece.contains(sep),
    ensures
        split_on(s + seq![sep] + piece, sep) == split_on(s, sep).push(piece),
    decreases piece.len(),
{
    let joined = s + seq![sep] + piece;
    if piece.len() == 0 {
        assert(joined.drop_last() =~= s);
        assert(piece =~= Seq::empty());
    } else {
        let front = piece.drop_last();
        assert forall|i: int| 0 <= i < front.len() implies front[i] != sep by {
            assert(piece[i] == front[i]);
        }
        assert(piece[piece.len() - 1] == piece.last());
        lemma_split_joined(s, front, sep);
        assert(joined.drop_last() =~= s + seq![sep] + front);
        assert(front.push(piece.last()) =~= piece);
        assert(split_on(s, sep).push(front).drop_last() =~= split_on(s, sep));
    }
}

/// The pieces of a text between the occurrences of a separator.
pub fn split(s: &str, sep: char) -> (parts: Vec<String>)
    ensures
        texts(parts@) == split_on(s@, sep),
{
    let len = s.unicode_len();
    let mut parts: Vec<String> = Vec::new();
    let mut start: usize = 0;
    let mut i: usize = 0;
    proof {
        assert(s@.take(0) =~= Seq::empty());
        assert(texts(parts@).push(s@.subrange(0, 0)) =~= split_on(s@.take(0), sep));
    }
    while i < len
        invariant
            start <= i <= len,
            len == s@.len(),
            texts(parts@).push(s@.subrange(start as int, i as int)) == split_on(
                s@.take(i as int),
                sep,
            ),
        decreases len - i,
    {
        let ghost before = texts(parts@);
        let ghost piece = s@.subrange(start as int, i as int);
        proof {
            assert(s@.take(i + 1).drop_last() =~= s@.take(i as int));
            assert(before.push(piece).drop_last() =~= before);
        }
        if s.get_char(i) == sep {
            parts.push(s.substring_char(start, i).to_string());
            start = i + 1;
            proof {
                assert(texts(parts@) =~= before.push(piece));
                assert(s@.subrange(start as int, i + 1) =~= Seq::<char>::empty());
            }
        } else {
            assert(s@.subrange(start as int, i + 1) =~= piece.push(s@[i as int]));
        }
        i = i + 1;
    }
    let ghost before = texts(parts@);
    parts.push(s.substring_char(start, len).to_string());
    proof {
        assert(s@.take(len as int) =~= s@);
        assert(texts(parts@) =~= before.push(s@.subrange(start as int, len as int)));
    }
    parts
}

/// What follows a prefix, if the text starts with it.
pub fn after_prefix<'a>(s: &'a str, prefix: &str) -> (rest: Option<&'a str>)
    ensures
        match rest {
            Some(r) => s@ == prefix@ + r@,
            None => !prefix@.is_prefix_of(s@),
        },
{
    let len = s.unicode_len();
    let n = prefix.unicode_len();
    if n > len {
        return None;
    }
    if same_text(s.substring_char(0, n), prefix) {
        let rest = s.substring_char(n, len);
        assert(s@ =~= prefix@ + rest@);
        Some(rest)
    } else {
        assert(prefix@.is_prefix_of(s@) ==> s@.subrange(0, n as int) =~= prefix@);
        None
    }
}

/// The two sides of the first occurrence of a separator, if there is one.
pub fn split_once<'a>(s: &'a str, sep: char) -> (sides: Option<(&'a str, &'a str)>)
    ensures
        match sides {
            Some((before, after)) => s@ == before@ + seq![sep] + after@ && !before@.contains(sep),
            None => !s@.contains(sep),
        },
{
    let len = s.unicode_len();
    let mut i: usize = 0;
    while i < len
        invariant
            i <= len,
            len == s@.len(),
            forall|j: int| 0 <= j < i ==> #[trigger] s@[j] != sep,
        decreases len - i,
    {
        if s.get_char(i) == sep {
            let before = s.substring_char(0, i);
            let after = s.substring_char(i + 1, len);
            assert(s@ =~= before@ + seq![sep] + after@);
            return Some((before, after));
        }
        i = i + 1;
    }
    None
}

/// The value of a decimal digit.
pub open spec fn decimal_digit_value(c: char) -> Option<nat> {
    if '0' <= c && c <= '9' {
        Some((c as nat - '0' as nat) as nat)
    } else {
        None
    }
}

/// The number that decimal digits spell, if they are all digits.
pub open spec fn decimal_digits_value(s: Seq<char>) -> Option<nat>
    decreases s.len(),
{
    if s.len() == 0 {
        Some(0)
    } else {
        match (decimal_digits_value(s.drop_last()), decimal_digit_value(s.last())) {
            (Some(high), Some(low)) => Some(high * 10 + low),
            _ => None,
        }
    }
}

/// The number that a text spells: at least one decimal digit, perhaps with a
/// plus sign before.
pub open spec fn spelled_number(s: Seq<char>) -> Option<nat> {
    let digits = if s.len() > 0 && s[0] == '+' {
        s.skip(1)
    } else {
        s
    };
    if digits.len() == 0 {
        None
    } else {
        decimal_digits_value(digits)
    }
}

proof fn lemma_digits_prefix(s: Seq<char>, i: int)
    requires
        0 <= i <= s.len(),
    ensures
        decimal_digits_value(s) matches Some(v) ==> decimal_digits_value(s.take(i)) matches Some(
            u,
        ) && u <= v,
    decreases s.len() - i,
{
    if i == s.len() {
        assert(s.take(i) =~= s);
    } else {
        lemma_digits_prefix(s, i + 1);
        assert(s.take(i + 1).drop_last() =~= s.take(i));
    }
}

/// The number that a text spells, if it is one and fits.
pub fn parse_number(s: &str) -> (number: Option<usize>)
    ensures
        match number {
            Some(n) => spelled_number(s@) == Some(n as nat),
            None => match spelled_number(s@) {
                Some(n) => n > usize::MAX,
                None => true,
            },
        },
{
    let len = s.unicode_len();
    let start: usize = if len > 0 && s.get_char(0) == '+' {
        1
    } else {
        0
    };
    if start == len {
        return None;
    }
    let ghost digits = s@.skip(start as int);
    assert(start == 0 ==> digits =~= s@);
    assert(digits.take(0) =~= Seq::empty());
    let mut value: usize = 0;
    let mut i: usize = start;
    while i < len
        invariant
            start <= i <= len,
            len == s@.len(),
            digits == s@.skip(start as int),
            digits.len() > 0,
            spelled_number(s@) == decimal_digits_value(digits),
            decimal_digits_value(digits.take(i - start)) == Some(value as nat),
        decreases len - i,
    {
        let c = s.get_char(i);
        proof {
            assert(digits.take(i - start + 1).drop_last() =~= digits.take(i - start));
            assert(digits.take(i - start + 1).last() == c);
            lemma_digits_prefix(digits, i - start + 1);
        }
        if c < '0' || c > '9' {
            return None;
        }
        let digit: usize = (c as u32 - '0' as u32) as usize;
        if value > (usize::MAX - digit) / 10 {
            return None;
        }
        value = value * 10 + digit;
        i = i + 1;
    }
    assert(digits.take(len - start) =~= digits);
    Some(value)
}

/// The number that hexadecimal digits spell, if they are all digits.
pub open spec fn hex_number(s: Seq<char>) -> Option<nat>
    decreases s.len(),
{
    if s.len() == 0 {
        Some(0)
    } else {
        match (hex_number(s.drop_last()), hex_digit_value(s.last())) {
            (Some(high), Some(low)) => Some(high * 16 + low),
            _ => None,
        }
    }
}

/// The byte that hexadecimal digits spell: at least one digit, a value that
/// fits.
pub open spec fn hex_byte_value(s: Seq<char>) -> Option<u8> {
    match hex_number(s) {
        Some(value) => if s.len() > 0 && value < 256 {
            Some(value as u8)
        } else {
            None
        },
        None => None,
    }
}

proof fn lemma_hex_number_prefix(s: Seq<char>, i: int)
    requires
        0 <= i <= s.len(),
        hex_number(s.take(i)) is None,
    ensures
        hex_number(s) is None,
    decreases s.len() - i,
{
    if i == s.len() {
        assert(s.take(i) =~= s);
    } else {
        assert(s.take(i + 1).drop_last() =~= s.take(i));
        lemma_hex_number_prefix(s, i + 1);
    }
}

/// Reads a byte in hexadecimal.
pub fn parse_hex_byte(s: &str) -> (byte: Option<u8>)
    ensures
        byte == hex_byte_value(s@),
{
    let len = s.unicode_len();
    if len == 0 {
        return None;
    }
    let mut value: u32 = 0;
    let mut i: usize = 0;
    assert(s@.take(0) =~= Seq::empty());
    while i < len
        invariant
            i <= len,
            len == s@.len(),
            value <= 256,
            hex_number(s@.take(i as int)) is Some,
            value < 256 ==> hex_number(s@.take(i as int)) == Some(value as nat),
            value == 256 ==> hex_number(s@.take(i as int))->0 >= 256,
        decreases len - i,
    {
        assert(s@.take(i + 1).drop_last() =~= s@.take(i as int));
        match hex_digit(s.get_char(i)) {
            Some(digit) => {
                value = value * 16 + digit as u32;
                if value > 256 {
                    value = 256;
                }
            },
            None => {
                proof {
                    lemma_hex_number_prefix(s@, i + 1);
                }
                return None;
            },
        }
        i = i + 1;
    }
    assert(s@.take(len as int) =~= s@);
    if value < 256 {
        Some(value as u8)
    } else {
        None
    }
}

/// Two digits read back as the byte they were written for.
pub proof fn lemma_hex_byte_round_trip(b: u8)
    ensures
        hex_byte_value(hex_byte(b)) == Some(b),
{
    lemma_hex_digit_round_trip(b as nat / 16);
    lemma_hex_digit_round_trip(b as nat % 16);
    reveal_with_fuel(hex_number, 3);
    assert(hex_byte(b).drop_last() =~= seq![hex_char(b as nat / 16)]);
    assert(seq![hex_char(b as nat / 16)].drop_last() =~= Seq::empty());
}

/// A digit reads back as the number it was written for.
pub proof fn lemma_hex_digit_round_trip(n: nat)
    requires
        n < 16,
    ensures
        hex_digit_value(hex_char(n)) == Some(n),
{
}

/// Where the digits of each byte stand.
pub proof fn lemma_hex_digits(bytes: Seq<u8>)
    ensures
        hex(bytes).len() == 2 * bytes.len(),
        forall|i: int|
            0 <= i < bytes.len() ==> {
                &&& hex(bytes)[2 * i] == hex_char((#[trigger] bytes[i]) as nat / 16)
                &&& hex(bytes)[2 * i + 1] == hex_char(bytes[i] as nat % 16)
            },
    decreases bytes.len(),
{
    if bytes.len() > 0 {
        let front = bytes.drop_last();
        lemma_hex_digits(front);
        assert forall|i: int| 0 <= i < bytes.len() implies {
            &&& hex(bytes)[2 * i] == hex_char((#[trigger] bytes[i]) as nat / 16)
            &&& hex(bytes)[2 * i + 1] == hex_char(bytes[i] as nat % 16)
        } by {
            if i < front.len() {
                assert(front[i] == bytes[i]);
            }
        }
    }
}

/// Different byte strings have different hexadecimal texts.
pub proof fn lemma_hex_injective(a: Seq<u8>, b: Seq<u8>)
    requires
        hex(a) == hex(b),
    ensures
        a == b,
{
    lemma_hex_digits(a);
    lemma_hex_digits(b);
    assert forall|i: int| 0 <= i < a.len() implies a[i] == b[i] by {
        lemma_hex_digit_round_trip(a[i] as nat / 16);
        lemma_hex_digit_round_trip(a[i] as nat % 16);
        lemma_hex_digit_round_trip(b[i] as nat / 16);
        lemma_hex_digit_round_trip(b[i] as nat % 16);
    }
    assert(a =~= b);
}

/// The digits of a number spell it.
pub proof fn lemma_decimal_spells(n: nat)
    ensures
        decimal_digits_value(decimal(n)) == Some(n),
        decimal(n).len() > 0,
        '0' <= decimal(n)[0] && decimal(n)[0] <= '9',
        decimal(n)[0] == '0' ==> n == 0,
    decreases n,
{
    reveal_with_fuel(decimal_digits_value, 2);
    if n < 10 {
        assert(seq![digit_char(n)].drop_last() == Seq::<char>::empty());
    } else {
        lemma_decimal_spells(n / 10);
        assert(decimal(n).drop_last() == decimal(n / 10));
        assert(decimal(n)[0] == decimal(n / 10)[0]);
    }
}

/// A number that is written in decimal reads back, and is written without zeros in
/// front.
pub proof fn numbers_read_back(out: &mut String, n: u64, text: &str, number: Option<usize>)
    requires
        old(out)@.len() == 0,
        call_ensures(put_decimal, (out, n), ()),
        text@ == final(out)@,
        call_ensures(parse_number, (text,), number),
    ensures
        n <= usize::MAX ==> (number matches Some(m) && m == n),
        n > usize::MAX ==> number is None,
        text@[0] == '0' ==> n == 0 && text@.len() == 1,
{
    lemma_decimal_spells(n as nat);
    assert(final(out)@ == decimal(n as nat));
}

/// Numbers may have zeros or one plus in front; nothing else may stand in them.
pub proof fn numbers_are_digits(text: &str, number: Option<usize>, i: int)
    requires
        call_ensures(parse_number, (text,), number),
    ensures
        text@.len() == 0 ==> number is None,
        1 <= i < text@.len() && !('0' <= text@[i] && text@[i] <= '9') ==> number is None,
        text@.len() > 0 && text@[0] != '+' && !('0' <= text@[0] && text@[0] <= '9')
            ==> number is None,
        text@.len() == 1 && '0' <= text@[0] && text@[0] <= '9' ==> (number matches Some(m) && m
            == text@[0] as int - '0' as int),
{
    let s = text@;
    let digits = if s.len() > 0 && s[0] == '+' {
        s.skip(1)
    } else {
        s
    };
    reveal_with_fuel(decimal_digits_value, 2);
    if 1 <= i < s.len() && !('0' <= s[i] && s[i] <= '9') {
        let at = i - (s.len() - digits.len());
        assert(digits[at] == s[i]);
        lemma_no_value(digits, at);
    }
    if s.len() > 0 && s[0] != '+' && !('0' <= s[0] && s[0] <= '9') {
        lemma_no_value(digits, 0);
    }
    if s.len() == 1 && '0' <= s[0] && s[0] <= '9' {
        assert(s.drop_last() == Seq::<char>::empty());
    }
}

proof fn lemma_no_value(s: Seq<char>, i: int)
    requires
        0 <= i < s.len(),
        !('0' <= s[i] && s[i] <= '9'),
    ensures
        decimal_digits_value(s) is None,
    decreases s.len(),
{
    if i < s.len() - 1 {
        assert(s.drop_last()[i] == s[i]);
        lemma_no_value(s.drop_last(), i);
    }
}

/// Hexadecimal reads back: each byte is two digits, the higher first, and reads as the
/// byte; digits are read in either case.
pub proof fn hexadecimal_reads_back(
    bytes: &[u8],
    text: String,
    i: int,
    high: Option<u8>,
    low: Option<u8>,
    pair: &str,
    byte: Option<u8>,
)
    requires
        0 <= i < bytes@.len(),
        call_ensures(to_hex, (bytes,), text),
        call_ensures(hex_digit, (text@[2 * i],), high),
        call_ensures(hex_digit, (text@[2 * i + 1],), low),
        pair@ == text@.subrange(2 * i, 2 * i + 2),
        call_ensures(parse_hex_byte, (pair,), byte),
    ensures
        text@.len() == 2 * bytes@.len(),
        high is Some && low is Some && high->Some_0 * 16 + low->Some_0 == bytes@[i],
        byte == Some(bytes@[i]),
{
    lemma_hex_digits(bytes@);
    let b = bytes@[i];
    lemma_hex_digit_round_trip(b as nat / 16);
    lemma_hex_digit_round_trip(b as nat % 16);
    lemma_hex_byte_round_trip(b);
    assert(pair@ == hex_byte(b));
}

/// Which characters are hexadecimal digits, and what each is worth.
pub proof fn hexadecimal_digits_are_worth(c: char, value: Option<u8>)
    requires
        call_ensures(hex_digit, (c,), value),
    ensures
        '0' <= c && c <= '9' ==> (value matches Some(v) && v == c as int - 48),
        'a' <= c && c <= 'f' ==> (value matches Some(v) && v == c as int - 87),
        'A' <= c && c <= 'F' ==> (value matches Some(v) && v == c as int - 55),
        !('0' <= c && c <= '9') && !('a' <= c && c <= 'f') && !('A' <= c && c <= 'F')
            ==> value is None,
{
}

/// The pieces with the separator between them.
pub open spec fn joined_with(pieces: Seq<Seq<char>>, sep: char) -> Seq<char>
    decreases pieces.len(),
{
    if pieces.len() == 0 {
        Seq::empty()
    } else if pieces.len() == 1 {
        pieces[0]
    } else {
        joined_with(pieces.drop_last(), sep).push(sep) + pieces.last()
    }
}

/// Splitting loses nothing, and no piece holds the separator.
pub proof fn lemma_split_joins(s: Seq<char>, sep: char)
    ensures
        joined_with(split_on(s, sep), sep) == s,
        forall|i: int| 0 <= i < split_on(s, sep).len() ==> !(#[trigger] split_on(s, sep)[i]).contains(sep),
    decreases s.len(),
{
    let pieces = split_on(s, sep);
    if s.len() == 0 {
        assert(pieces[0] == Seq::<char>::empty());
    } else {
        let front = split_on(s.drop_last(), sep);
        lemma_split_joins(s.drop_last(), sep);
        lemma_split_nonempty(s.drop_last(), sep);
        if s.last() == sep {
            assert(pieces.drop_last() == front);
            assert(joined_with(front, sep).push(sep) + Seq::<char>::empty() == s);
            assert forall|i: int| 0 <= i < pieces.len() implies !(#[trigger] pieces[i]).contains(sep) by {
                if i < front.len() {
                    assert(pieces[i] == front[i]);
                }
            }
        } else {
            let longer = front.last().push(s.last());
            assert(pieces == front.drop_last().push(longer));
            assert(pieces.drop_last() == front.drop_last());
            assert(pieces.last() == longer);
            if front.len() == 1 {
                assert(pieces[0] == longer);
                assert(front[0] == s.drop_last());
                assert(longer == s);
            } else {
                let head = joined_with(front.drop_last(), sep).push(sep);
                assert(head + longer == (head + front.last()).push(s.last()));
                assert((head + front.last()).push(s.last()) == s);
            }
            assert forall|i: int| 0 <= i < pieces.len() implies !(#[trigger] pieces[i]).contains(sep) by {
                if i < front.len() - 1 {
                    assert(pieces[i] == front[i]);
                } else {
                    let k = front.len() - 1;
                    assert(!front[k].contains(sep));
                    if longer.contains(sep) {
                        let j = choose|j: int| 0 <= j < longer.len() && longer[j] == sep;
                        assert(front[k][j] == sep);
                    }
                }
            }
        }
    }
}

/// Splitting loses nothing: the pieces hold no separator, and with the separator
/// between them they are the text again.
pub proof fn split_pieces_join_again(s: &str, sep: char, parts: Vec<String>)
    requires
        call_ensures(split, (s, sep), parts),
    ensures
        joined_with(texts(parts@), sep) == s@,
        parts@.len() > 0,
        forall|i: int| 0 <= i < parts@.len() ==> !(#[trigger] parts@[i])@.contains(sep),
{
    lemma_split_joins(s@, sep);
    lemma_split_nonempty(s@, sep);
    let pieces = split_on(s@, sep);
    assert(texts(parts@).len() == parts@.len());
    assert forall|i: int| 0 <= i < parts@.len() implies !(#[trigger] parts@[i])@.contains(sep) by {
        assert(texts(parts@)[i] == pieces[i]);
    }
}

/// Three pieces, and four, with the separator between them.
pub proof fn lemma_joined_few(pieces: Seq<Seq<char>>, sep: char)
    ensures
        pieces.len() == 3 ==> joined_with(pieces, sep) == pieces[0] + seq![sep] + pieces[1] + seq![
            sep,
        ] + pieces[2],
        pieces.len() == 4 ==> joined_with(pieces, sep) == pieces[0] + seq![sep] + pieces[1] + seq![
            sep,
        ] + pieces[2] + seq![sep] + pieces[3],
{
    reveal_with_fuel(joined_with, 5);
    if pieces.len() == 3 {
        assert(joined_with(pieces, sep) =~= pieces[0] + seq![sep] + pieces[1] + seq![sep]
            + pieces[2]);
    }
    if pieces.len() == 4 {
        assert(joined_with(pieces, sep) =~= pieces[0] + seq![sep] + pieces[1] + seq![sep]
            + pieces[2] + seq![sep] + pieces[3]);
    }
}

/// Texts are compared whole, cut after a prefix, and cut once at the first separator.
pub proof fn texts_are_cut_where_asked(
    a: &str,
    b: &str,
    same: bool,
    rest: Option<&str>,
    sep: char,
    sides: Option<(&str, &str)>,
    out: &mut String,
    byte: u8,
)
    requires
        call_ensures(same_text, (a, b), same),
        call_ensures(after_prefix, (a, b), rest),
        call_ensures(split_once, (a, sep), sides),
        call_ensures(put_hex_byte, (out, byte), ()),
    ensures
        same <==> a@ == b@,
        rest is Some <==> b@.is_prefix_of(a@),
        rest matches Some(r) ==> a@ == b@ + r@,
        sides is Some <==> a@.contains(sep),
        sides matches Some((before, after)) ==> a@ == before@ + seq![sep] + after@
            && !before@.contains(sep),
        final(out)@ == old(out)@ + hex(seq![byte]),
{
    if let Some(r) = rest {
        assert((b@ + r@).take(b@.len() as int) == b@);
    }
    if let Some((before, after)) = sides {
        assert(a@[before@.len() as int] == sep);
    }
    reveal_with_fuel(hex, 2);
    assert(hex(seq![byte]) == hex_byte(byte));
}

/// What does not fit in a byte is none: three digits spell a byte exactly if the first is
/// a zero, and nothing spells none.
pub proof fn bytes_are_spelled_below_256(
    text: &str,
    byte: Option<u8>,
    first: Option<u8>,
    second: Option<u8>,
    third: Option<u8>,
)
    requires
        call_ensures(parse_hex_byte, (text,), byte),
        text@.len() == 3 ==> call_ensures(hex_digit, (text@[0],), first) && call_ensures(
            hex_digit,
            (text@[1],),
            second,
        ) && call_ensures(hex_digit, (text@[2],), third),
    ensures
        text@.len() == 0 ==> byte is None,
        text@.len() == 3 && (first is None || second is None || third is None) ==> byte is None,
        text@.len() == 3 && first is Some && second is Some && third is Some ==> {
            &&& byte is Some <==> first == Some(0u8)
            &&& byte matches Some(b) ==> b == second->Some_0 * 16 + third->Some_0
        },
{
    let s = text@;
    if s.len() == 3 {
        reveal_with_fuel(hex_number, 4);
        assert(s.drop_last().last() == s[1]);
        assert(s.drop_last().drop_last().last() == s[0]);
        assert(s.drop_last().drop_last().drop_last().len() == 0);
    }
}

} // verus!
