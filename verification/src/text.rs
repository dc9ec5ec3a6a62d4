//! Text in and out: ASCII case, integers, trimming and splitting.

use vstd::prelude::*;

verus! {

/// `String::push`: the character is appended, the rest is left as it is.
pub assume_specification[ String::push ](s: &mut String, c: char)
    ensures
        final(s)@ == old(s)@.push(c),
;

/// The characters of a string.
pub fn chars_of(s: &str) -> (out: Vec<char>)
    ensures
        out@ == s@,
{
    let mut out: Vec<char> = Vec::new();
    for c in it: s.chars()
        invariant
            it.seq() == s@,
            out@ == s@.take(it.index()),
    {
        out.push(c);
        assert(s@.take(it.index() + 1) =~= s@.take(it.index()).push(c));
    }
    assert(s@.take(s@.len() as int) =~= s@);
    out
}

/// The string made of `chars`.
pub fn string_of(chars: &[char]) -> (out: String)
    ensures
        out@ == chars@,
{
    let mut out = String::new();
    let mut i: usize = 0;
    while i < chars.len()
        invariant
            i <= chars@.len(),
            out@ =~= chars@.take(i as int),
        decreases chars@.len() - i,
    {
        out.push(chars[i]);
        i += 1;
    }
    assert(chars@.take(chars@.len() as int) =~= chars@);
    out
}

/// Whether two character sequences are the same.
pub fn same_chars(a: &[char], b: &[char]) -> (same: bool)
    ensures
        same == (a@ == b@),
{
    if a.len() != b.len() {
        return false;
    }
    let mut i: usize = 0;
    while i < a.len()
        invariant
            i <= a@.len() == b@.len(),
            a@.take(i as int) =~= b@.take(i as int),
        decreases a@.len() - i,
    {
        if a[i] != b[i] {
            return false;
        }
        assert(a@.take(i + 1) =~= a@.take(i as int).push(a@[i as int]));
        i += 1;
    }
    assert(a@ =~= a@.take(a@.len() as int));
    assert(b@ =~= b@.take(b@.len() as int));
    true
}

/// Whether two strings are the same.
pub fn same_text(a: &str, b: &str) -> (same: bool)
    ensures
        same == (a@ == b@),
{
    let x = chars_of(a);
    let y = chars_of(b);
    same_chars(&x, &y)
}

/// The lower-case form of an ASCII letter; any other character is kept.
pub open spec fn lower_char(c: char) -> char {
    if 'A' <= c && c <= 'Z' {
        (c as u32 + 32) as char
    } else {
        c
    }
}

/// `s` with its ASCII letters in lower case.
pub open spec fn lower(s: Seq<char>) -> Seq<char> {
    s.map_values(|c: char| lower_char(c))
}

/// The ASCII lower-case form of `s`.
pub fn lower_chars(s: &str) -> (out: Vec<char>)
    ensures
        out@ == lower(s@),
{
    let chars = chars_of(s);
    let mut out: Vec<char> = Vec::new();
    let mut i: usize = 0;
    while i < chars.len()
        invariant
            i <= chars@.len(),
            chars@ == s@,
            out@ =~= lower(s@).take(i as int),
        decreases chars@.len() - i,
    {
        let c = chars[i];
        let l = if 'A' <= c && c <= 'Z' {
            (c as u8 + 32) as char
        } else {
            c
        };
        out.push(l);
        i += 1;
    }
    assert(lower(s@).take(s@.len() as int) =~= lower(s@));
    out
}

/// Whether `s` is `word` up to ASCII case.
pub fn is_word(s: &str, word: &str) -> (same: bool)
    ensures
        same == (lower(s@) == lower(word@)),
{
    let a = lower_chars(s);
    let b = lower_chars(word);
    same_chars(&a, &b)
}

/// The digit character for `d` below 16, with letters starting at `letter`.
pub open spec fn digit_char(d: int, letter: char) -> char {
    if d < 10 {
        ('0' as u32 + d) as char
    } else {
        (letter as u32 + (d - 10)) as char
    }
}

/// The digit character for `d`, with letters from `letter`.
fn digit(d: u8, letter: u8) -> (c: char)
    requires
        d < 16,
        letter <= 0x61,
    ensures
        c == digit_char(d as int, letter as char),
{
    if d < 10 {
        (0x30 + d) as char
    } else {
        (letter + (d - 10)) as char
    }
}

/// Four upper-case hex digits.
pub open spec fn hex4(v: u16) -> Seq<char> {
    seq![
        digit_char(v as int / 0x1000, 'A'),
        digit_char(v as int / 0x100 % 16, 'A'),
        digit_char(v as int / 0x10 % 16, 'A'),
        digit_char(v as int % 16, 'A'),
    ]
}

/// Appends four upper-case hex digits.
pub fn push_hex4(out: &mut String, v: u16)
    ensures
        final(out)@ == old(out)@ + hex4(v),
{
    let ghost before = out@;
    out.push(digit((v / 0x1000) as u8, 0x41));
    out.push(digit((v / 0x100 % 16) as u8, 0x41));
    out.push(digit((v / 0x10 % 16) as u8, 0x41));
    out.push(digit((v % 16) as u8, 0x41));
    assert(out@ =~= before + hex4(v));
}

/// Two lower-case hex digits per byte.
pub open spec fn hex_of(bytes: Seq<u8>) -> Seq<char> {
    Seq::new(
        2 * bytes.len(),
        |i: int|
            if i % 2 == 0 {
                digit_char(bytes[i / 2] as int / 16, 'a')
            } else {
                digit_char(bytes[i / 2] as int % 16, 'a')
            },
    )
}

/// Two lower-case hex digits per byte.
pub fn hex_string(bytes: &[u8]) -> (out: String)
    ensures
        out@ == hex_of(bytes@),
{
    let mut out = String::new();
    let mut i: usize = 0;
    while i < bytes.len()
        invariant
            i <= bytes@.len(),
            out@ =~= hex_of(bytes@).take(2 * i),
        decreases bytes@.len() - i,
    {
        out.push(digit(bytes[i] / 16, 0x61));
        out.push(digit(bytes[i] % 16, 0x61));
        i += 1;
    }
    assert(hex_of(bytes@).take(2 * bytes@.len() as int) =~= hex_of(bytes@));
    out
}

/// Decimal digits of `n`, without leading zeros.
pub open spec fn decimal(n: nat) -> Seq<char>
    decreases n,
{
    if n < 10 {
        seq![digit_char(n as int, 'a')]
    } else {
        decimal(n / 10).push(digit_char(n as int % 10, 'a'))
    }
}

/// Appends the decimal digits of `n`.
pub fn push_decimal(out: &mut String, n: u64)
    ensures
        final(out)@ == old(out)@ + decimal(n as nat),
    decreases n,
{
    let ghost before = out@;
    if n >= 10 {
        push_decimal(out, n / 10);
    }
    out.push(digit((n % 10) as u8, 0x61));
    assert(out@ =~= before + decimal(n as nat));
}

/// Why a text is not an integer.
#[derive(Debug, Clone, Copy, PartialEq, Eq, Structural)]
pub enum IntError {
    /// No characters.
    Empty,
    /// A character that is not a digit, or a lone sign.
    InvalidDigit,
    /// A value above the type's maximum.
    PosOverflow,
}

impl IntError {
    /// The error in words.
    pub open spec fn words(self) -> Seq<char> {
        match self {
            IntError::Empty => "cannot parse integer from empty string"@,
            IntError::InvalidDigit => "invalid digit found in string"@,
            IntError::PosOverflow => "number too large to fit in target type"@,
        }
    }

    /// The error in words.
    pub fn message(&self) -> (m: &'static str)
        ensures
            m@ == self.words(),
    {
        match self {
            IntError::Empty => "cannot parse integer from empty string",
            IntError::InvalidDigit => "invalid digit found in string",
            IntError::PosOverflow => "number too large to fit in target type",
        }
    }
}

/// The value of a digit in `radix` (at most 16), in either case.
pub open spec fn digit_value(c: char, radix: int) -> Option<int> {
    let v = if '0' <= c && c <= '9' {
        c as int - '0' as int
    } else if 'a' <= c && c <= 'f' {
        c as int - 'a' as int + 10
    } else if 'A' <= c && c <= 'F' {
        c as int - 'A' as int + 10
    } else {
        16
    };
    if v < radix {
        Some(v)
    } else {
        None
    }
}

/// The value of a digit in `radix`.
pub fn value_of_digit(c: char, radix: u32) -> (v: Option<u32>)
    requires
        radix <= 16,
    ensures
        v is Some <==> digit_value(c, radix as int) is Some,
        v matches Some(d) ==> d < radix && digit_value(c, radix as int) == Some(d as int),
{
    let v: u32 = if '0' <= c && c <= '9' {
        c as u32 - 0x30
    } else if 'a' <= c && c <= 'f' {
        c as u32 - 0x61 + 10
    } else if 'A' <= c && c <= 'F' {
        c as u32 - 0x41 + 10
    } else {
        16
    };
    if v < radix {
        Some(v)
    } else {
        None
    }
}

/// Reads `s` digit by digit onto `acc`; the first digit that is not one, or
/// that takes the value above `max`, decides the error.
pub open spec fn accumulate(acc: int, s: Seq<char>, radix: int, max: int) -> Result<int, IntError>
    decreases s.len(),
{
    if s.len() == 0 {
        Ok(acc)
    } else {
        match digit_value(s[0], radix) {
            None => Err(IntError::InvalidDigit),
            Some(d) => if acc * radix + d > max {
                Err(IntError::PosOverflow)
            } else {
                accumulate(acc * radix + d, s.skip(1), radix, max)
            },
        }
    }
}

/// An unsigned integer in `radix`, at most `max`, with an optional plus sign.
pub open spec fn unsigned(s: Seq<char>, radix: int, max: int) -> Result<int, IntError> {
    if s.len() == 0 {
        Err(IntError::Empty)
    } else if s == seq!['+'] {
        Err(IntError::InvalidDigit)
    } else if s[0] == '+' {
        accumulate(0, s.skip(1), radix, max)
    } else {
        accumulate(0, s, radix, max)
    }
}

/// Parses an unsigned integer of at most `max`, with an optional plus sign.
pub fn parse_unsigned(s: &[char], radix: u32, max: u32) -> (r: Result<u32, IntError>)
    requires
        2 <= radix <= 16,
    ensures
        r matches Ok(v) ==> unsigned(s@, radix as int, max as int) == Ok::<int, IntError>(v as int),
        r matches Err(e) ==> unsigned(s@, radix as int, max as int) == Err::<int, IntError>(e),
{
    if s.len() == 0 {
        return Err(IntError::Empty);
    }
    let mut i: usize = 0;
    if s[0] == '+' {
        if s.len() == 1 {
            assert(s@ =~= seq!['+']);
            return Err(IntError::InvalidDigit);
        }
        i = 1;
    }
    let ghost whole = unsigned(s@, radix as int, max as int);
    assert(s@.skip(0) =~= s@);
    let mut acc: u64 = 0;
    while i < s.len()
        invariant
            i <= s@.len(),
            acc <= max,
            2 <= radix <= 16,
            whole == unsigned(s@, radix as int, max as int),
            whole == accumulate(acc as int, s@.skip(i as int), radix as int, max as int),
        decreases s@.len() - i,
    {
        assert(s@.skip(i as int).skip(1) =~= s@.skip(i + 1));
        assert(acc * radix <= 0xffff_ffff * 16) by (nonlinear_arith)
            requires
                acc <= 0xffff_ffff,
                radix <= 16,
        ;
        match value_of_digit(s[i], radix) {
            None => {
                return Err(IntError::InvalidDigit);
            },
            Some(d) => {
                let next: u64 = acc * radix as u64 + d as u64;
                if next > max as u64 {
                    return Err(IntError::PosOverflow);
                }
                acc = next;
            },
        }
        i += 1;
    }
    Ok(acc as u32)
}

/// The characters with the Unicode White_Space property.
pub open spec fn white_space(c: char) -> bool {
    let v = c as u32;
    ||| 9 <= v <= 13
    ||| v == 0x20
    ||| v == 0x85
    ||| v == 0xA0
    ||| v == 0x1680
    ||| 0x2000 <= v <= 0x200A
    ||| v == 0x2028
    ||| v == 0x2029
    ||| v == 0x202F
    ||| v == 0x205F
    ||| v == 0x3000
}

/// Whether `c` has the Unicode White_Space property.
fn is_white_space(c: char) -> (b: bool)
    ensures
        b == white_space(c),
{
    let v: u32 = c as u32;
    (9 <= v && v <= 13) || v == 0x20 || v == 0x85 || v == 0xA0 || v == 0x1680 || (0x2000 <= v && v
        <= 0x200A) || v == 0x2028 || v == 0x2029 || v == 0x202F || v == 0x205F || v == 0x3000
}

/// `s` without leading white space.
pub open spec fn trim_start(s: Seq<char>) -> Seq<char>
    decreases s.len(),
{
    if s.len() > 0 && white_space(s[0]) {
        trim_start(s.skip(1))
    } else {
        s
    }
}

/// `s` without trailing white space.
pub open spec fn trim_end(s: Seq<char>) -> Seq<char>
    decreases s.len(),
{
    if s.len() > 0 && white_space(s.last()) {
        trim_end(s.drop_last())
    } else {
        s
    }
}

/// `s` without leading and trailing white space.
pub open spec fn trim(s: Seq<char>) -> Seq<char> {
    trim_end(trim_start(s))
}

/// `s` without leading and trailing white space.
pub fn trimmed(s: &str) -> (out: Vec<char>)
    ensures
        out@ == trim(s@),
{
    let chars = chars_of(s);
    let mut from: usize = 0;
    assert(chars@.skip(0) =~= chars@);
    while from < chars.len() && is_white_space(chars[from])
        invariant
            from <= chars@.len(),
            trim_start(chars@.skip(from as int)) == trim_start(chars@),
        decreases chars@.len() - from,
    {
        assert(chars@.skip(from as int).skip(1) =~= chars@.skip(from + 1));
        from += 1;
    }
    let ghost rest = chars@.skip(from as int);
    assert(trim_start(rest) == rest);
    let mut to: usize = chars.len();
    assert(rest.take(to - from) =~= rest);
    while to > from && is_white_space(chars[to - 1])
        invariant
            from <= to <= chars@.len(),
            rest == chars@.skip(from as int),
            trim_end(rest.take(to - from)) == trim_end(rest),
        decreases to,
    {
        assert(rest.take(to - from).drop_last() =~= rest.take(to - 1 - from));
        to -= 1;
    }
    let mut out: Vec<char> = Vec::new();
    let mut i: usize = from;
    while i < to
        invariant
            from <= i <= to <= chars@.len(),
            rest == chars@.skip(from as int),
            out@ =~= rest.take(i - from),
        decreases to - i,
    {
        out.push(chars[i]);
        i += 1;
    }
    out
}

/// The pieces of `s` between the separators `sep`.
pub open spec fn split(s: Seq<char>, sep: char) -> Seq<Seq<char>>
    decreases s.len(),
{
    if s.len() == 0 {
        seq![Seq::<char>::empty()]
    } else {
        let pieces = split(s.drop_last(), sep);
        if s.last() == sep {
            pieces.push(Seq::<char>::empty())
        } else {
            pieces.drop_last().push(pieces.last().push(s.last()))
        }
    }
}

/// The views of a list of strings.
pub open spec fn texts(v: Seq<String>) -> Seq<Seq<char>> {
    v.map_values(|s: String| s@)
}

/// The pieces of `s` between the separators `sep`.
pub fn split_text(s: &str, sep: char) -> (out: Vec<String>)
    ensures
        texts(out@) == split(s@, sep),
{
    let chars = chars_of(s);
    let mut out: Vec<String> = Vec::new();
    let mut piece = String::new();
    let mut i: usize = 0;
    assert(texts(out@).push(piece@) =~= split(chars@.take(0), sep));
    while i < chars.len()
        invariant
            i <= chars@.len(),
            texts(out@).push(piece@) == split(chars@.take(i as int), sep),
        decreases chars@.len() - i,
    {
        let ghost seen = chars@.take(i + 1);
        let ghost before = split(chars@.take(i as int), sep);
        let ghost (out0, piece0) = (out@, piece@);
        assert(seen.drop_last() =~= chars@.take(i as int));
        assert(before.drop_last() =~= texts(out@));
        let c = chars[i];
        if c == sep {
            out.push(piece);
            piece = String::new();
            assert(texts(out@) =~= texts(out0).push(piece0));
        } else {
            piece.push(c);
        }
        assert(texts(out@).push(piece@) =~= split(seen, sep));
        i += 1;
    }
    assert(chars@.take(chars@.len() as int) =~= s@);
    let ghost (out0, piece0) = (out@, piece@);
    out.push(piece);
    assert(texts(out@) =~= texts(out0).push(piece0));
    out
}

} // verus!
