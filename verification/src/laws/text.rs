//! Text: numbers in words of digits, trimming, splitting, case.

use crate::text::{
    chars_of, decimal, digit_char, hex_string, is_word, lower_chars, parse_unsigned, push_decimal,
    push_hex4, same_chars, same_text, split, split_text, string_of, texts, trim_end, trim_start,
    trimmed, unsigned, value_of_digit, IntError,
};
use vstd::prelude::*;

verus! {

/// The value of a digit, letters in either case; -1 for other characters.
pub open spec fn worth(c: char) -> int {
    let v = c as int;
    if 48 <= v <= 57 {
        v - 48
    } else if 65 <= v <= 70 {
        v - 55
    } else if 97 <= v <= 102 {
        v - 87
    } else {
        -1
    }
}

/// The number that digits make.
pub open spec fn made_of(s: Seq<char>, radix: int) -> int
    decreases s.len(),
{
    if s.len() == 0 {
        0
    } else {
        radix * made_of(s.drop_last(), radix) + worth(s.last())
    }
}

/// Whether all characters are digits below the radix.
pub open spec fn all_digits(s: Seq<char>, radix: int) -> bool {
    forall|i: int| 0 <= i < s.len() ==> 0 <= worth(#[trigger] s[i]) < radix
}

/// Whether some characters are the decimal digits of a number, without leading
/// zeros.
pub open spec fn numeral(s: Seq<char>, n: int) -> bool {
    &&& s.len() > 0
    &&& all_digits(s, 10)
    &&& made_of(s, 10) == n
    &&& s.len() > 1 ==> s[0] != '0'
}

/// Digits below ten are told apart by their worth.
proof fn lemma_worth(c: char, d: char)
    requires
        0 <= worth(c) < 10,
        worth(c) == worth(d),
    ensures
        c == d,
{
}

/// The value of digits is not negative, and positive where the first is.
proof fn lemma_made_of_bounds(s: Seq<char>)
    requires
        all_digits(s, 10),
    ensures
        made_of(s, 10) >= 0,
        s.len() > 0 && s[0] != '0' ==> made_of(s, 10) > 0,
        s.len() > 1 && s[0] != '0' ==> made_of(s, 10) >= 10,
    decreases s.len(),
{
    if s.len() > 0 {
        let front = s.drop_last();
        assert(0 <= worth(s[s.len() - 1]));
        assert(all_digits(front, 10)) by {
            assert forall|i: int| 0 <= i < front.len() implies 0 <= worth(#[trigger] front[i])
                < 10 by {
                assert(0 <= worth(s[i]) < 10);
            }
        }
        lemma_made_of_bounds(front);
        if s.len() == 1 && s[0] != '0' {
            if worth(s[0]) == 0 {
                lemma_worth(s[0], '0');
            }
        }
    }
}

/// A number has one numeral.
pub proof fn law_numerals(s: Seq<char>, t: Seq<char>, n: int)
    requires
        numeral(s, n),
        numeral(t, n),
    ensures
        s == t,
    decreases s.len(),
{
    lemma_made_of_bounds(s);
    lemma_made_of_bounds(t);
    let (a, b) = (s.drop_last(), t.drop_last());
    assert(0 <= worth(s[s.len() - 1]) < 10 && 0 <= worth(t[t.len() - 1]) < 10);
    assert(all_digits(a, 10)) by {
        assert forall|i: int| 0 <= i < a.len() implies 0 <= worth(#[trigger] a[i]) < 10 by {
            assert(0 <= worth(s[i]) < 10);
        }
    }
    assert(all_digits(b, 10)) by {
        assert forall|i: int| 0 <= i < b.len() implies 0 <= worth(#[trigger] b[i]) < 10 by {
            assert(0 <= worth(t[i]) < 10);
        }
    }
    assert(made_of(a, 10) == made_of(b, 10) && worth(s.last()) == worth(t.last()));
    lemma_worth(s.last(), t.last());
    assert(s =~= a.push(s.last()));
    assert(t =~= b.push(t.last()));
    if s.len() == 1 && t.len() > 1 {
        assert(made_of(a, 10) == 0);
    }
    if t.len() == 1 && s.len() > 1 {
        assert(made_of(b, 10) == 0);
    }
    if s.len() > 1 {
        law_numerals(a, b, made_of(a, 10));
    }
}

/// The decimal form of a number is its numeral.
pub proof fn lemma_decimal(n: nat)
    ensures
        numeral(decimal(n), n as int),
    decreases n,
{
    reveal_with_fuel(made_of, 2);
    let s = decimal(n);
    if n >= 10 {
        let front = decimal(n / 10);
        lemma_decimal(n / 10);
        lemma_one_digit(n as int % 10);
        assert(s.drop_last() =~= front);
        assert(front.len() > 0 && s[0] == front[0]);
        if front.len() == 1 && front[0] == '0' {
            assert(front.drop_last().len() == 0);
            assert(made_of(front, 10) == 0);
        }
        assert forall|i: int| 0 <= i < s.len() implies 0 <= worth(#[trigger] s[i]) < 10 by {
            if i < front.len() {
                assert(s[i] == front[i]);
            }
        }
    } else {
        lemma_one_digit(n as int);
        assert(s.drop_last().len() == 0);
    }
}

/// Whether a digit is written with a lower-case letter, or with an upper-case
/// one.
pub open spec fn in_case(c: char, upper: bool) -> bool {
    if upper {
        '0' <= c <= '9' || 'A' <= c <= 'F'
    } else {
        '0' <= c <= '9' || 'a' <= c <= 'f'
    }
}

/// The characters of the digits.
proof fn lemma_one_digit(d: int)
    requires
        0 <= d < 16,
    ensures
        worth(digit_char(d, 'a')) == d,
        worth(digit_char(d, 'A')) == d,
        in_case(digit_char(d, 'a'), false),
        in_case(digit_char(d, 'A'), true),
{
}

/// Numbers are written behind what is there: in decimal without leading zeros,
/// as four upper-case hex digits, and bytes as two lower-case hex digits each.
pub proof fn law_digits(
    out: &mut String,
    n: u64,
    hex: &mut String,
    v: u16,
    bytes: &[u8],
    all: String,
    i: int,
)
    requires
        call_ensures(push_decimal, (out, n), ()),
        call_ensures(push_hex4, (hex, v), ()),
        call_ensures(hex_string, (bytes,), all),
        0 <= i < bytes@.len(),
    ensures
        old(out)@.is_prefix_of(final(out)@),
        numeral(final(out)@.skip(old(out)@.len() as int), n as int),
        ({
            let h = final(hex)@.skip(old(hex)@.len() as int);
            &&& old(hex)@.is_prefix_of(final(hex)@)
            &&& h.len() == 4
            &&& in_case(h[0], true) && in_case(h[1], true) && in_case(h[2], true) && in_case(
                h[3],
                true,
            )
            &&& 4096 * worth(h[0]) + 256 * worth(h[1]) + 16 * worth(h[2]) + worth(h[3]) == v
        }),
        all@.len() == 2 * bytes@.len(),
        in_case(all@[2 * i], false) && in_case(all@[2 * i + 1], false),
        16 * worth(all@[2 * i]) + worth(all@[2 * i + 1]) == bytes@[i],
{
    lemma_decimal(n as nat);
    assert(final(out)@.skip(old(out)@.len() as int) =~= decimal(n as nat));
    assert(final(hex)@.skip(old(hex)@.len() as int) =~= crate::text::hex4(v));
    lemma_hex4(v);
    lemma_hex_pair(bytes@, i);
}

/// The nibbles of a number make it.
proof fn lemma_nibbles(w: int)
    requires
        0 <= w < 0x1_0000,
    ensures
        0 <= w / 0x1000 < 16,
        4096 * (w / 0x1000) + 256 * (w / 0x100 % 16) + 16 * (w / 0x10 % 16) + w % 16 == w,
{
}

/// Four hex digits.
proof fn lemma_hex4(v: u16)
    ensures
        ({
            let h = crate::text::hex4(v);
            &&& h.len() == 4
            &&& in_case(h[0], true) && in_case(h[1], true) && in_case(h[2], true) && in_case(
                h[3],
                true,
            )
            &&& 4096 * worth(h[0]) + 256 * worth(h[1]) + 16 * worth(h[2]) + worth(h[3]) == v
        }),
{
    let w = v as int;
    let (a, b, c, d) = (w / 0x1000, w / 0x100 % 16, w / 0x10 % 16, w % 16);
    lemma_one_digit(a);
    lemma_one_digit(b);
    lemma_one_digit(c);
    lemma_one_digit(d);
    lemma_nibbles(w);
    let h = crate::text::hex4(v);
    assert(h[0] == digit_char(a, 'A') && h[1] == digit_char(b, 'A') && h[2] == digit_char(c, 'A')
        && h[3] == digit_char(d, 'A'));
}

/// Two hex digits of a byte.
proof fn lemma_hex_pair(bytes: Seq<u8>, i: int)
    requires
        0 <= i < bytes.len(),
    ensures
        ({
            let s = crate::text::hex_of(bytes);
            &&& in_case(s[2 * i], false) && in_case(s[2 * i + 1], false)
            &&& 16 * worth(s[2 * i]) + worth(s[2 * i + 1]) == bytes[i]
        }),
{
    let s = crate::text::hex_of(bytes);
    let x = bytes[i] as int;
    lemma_one_digit(x / 16);
    lemma_one_digit(x % 16);
    assert((2 * i) % 2 == 0 && (2 * i) / 2 == i);
    assert((2 * i + 1) % 2 == 1 && (2 * i + 1) / 2 == i);
    assert(s[2 * i] == digit_char(x / 16, 'a'));
    assert(s[2 * i + 1] == digit_char(x % 16, 'a'));
}

/// Digits have their values, letters in either case, and none at or above the
/// radix.
pub proof fn law_digit_values(c: char, radix: u32, v: Option<u32>)
    requires
        radix <= 16,
        call_ensures(value_of_digit, (c, radix), v),
    ensures
        (v is Some) == (0 <= worth(c) < radix),
        v matches Some(d) ==> d == worth(c),
{
    lemma_digit_value(c, radix as int);
}

/// The value of a digit is its worth.
proof fn lemma_digit_value(c: char, radix: int)
    requires
        radix <= 16,
    ensures
        crate::text::digit_value(c, radix) == (if 0 <= worth(c) < radix {
            Some(worth(c))
        } else {
            None
        }),
{
}

/// What stands behind an optional plus sign.
pub open spec fn behind_sign(s: Seq<char>) -> Seq<char> {
    if s.len() > 0 && s[0] == '+' {
        s.skip(1)
    } else {
        s
    }
}

/// Whether reading digits stops at a place: with an invalid digit where there
/// is none below the radix, with an overflow where the value goes above the
/// maximum. Everything before was in order.
pub open spec fn stops_at(s: Seq<char>, i: int, radix: int, max: int, e: IntError) -> bool {
    &&& 0 <= i < s.len()
    &&& all_digits(s.take(i), radix)
    &&& made_of(s.take(i), radix) <= max
    &&& if 0 <= worth(s[i]) < radix {
        e == IntError::PosOverflow && made_of(s.take(i + 1), radix) > max
    } else {
        e == IntError::InvalidDigit
    }
}

/// Reading on at a place that everything before was in order.
proof fn lemma_read(s: Seq<char>, i: int, radix: int, max: int)
    requires
        2 <= radix <= 16,
        0 <= i <= s.len(),
        all_digits(s.take(i), radix),
        made_of(s.take(i), radix) <= max,
    ensures
        match crate::text::accumulate(made_of(s.take(i), radix), s.skip(i), radix, max) {
            Ok(v) => all_digits(s, radix) && made_of(s, radix) == v && v <= max,
            Err(e) => exists|j: int| #[trigger] stops_at(s, j, radix, max, e),
        },
    decreases s.len() - i,
{
    let acc = made_of(s.take(i), radix);
    let r = crate::text::accumulate(acc, s.skip(i), radix, max);
    if i == s.len() {
        assert(s.take(i) =~= s);
        assert(s.skip(i).len() == 0);
    } else {
        assert(s.skip(i)[0] == s[i]);
        assert(s.skip(i).skip(1) =~= s.skip(i + 1));
        assert(s.take(i + 1).drop_last() =~= s.take(i));
        lemma_digit_value(s[i], radix);
        assert(acc * radix == radix * acc) by (nonlinear_arith);
        if 0 <= worth(s[i]) < radix && made_of(s.take(i + 1), radix) <= max {
            assert(all_digits(s.take(i + 1), radix)) by {
                let t = s.take(i + 1);
                assert forall|k: int| 0 <= k < t.len() implies 0 <= worth(#[trigger] t[k])
                    < radix by {
                    if k < i {
                        assert(s.take(i)[k] == t[k]);
                    }
                }
            }
            lemma_read(s, i + 1, radix, max);
        } else {
            assert(r is Err);
            assert(stops_at(s, i, radix, max, r->Err_0));
        }
    }
}

/// Numbers are read digit by digit, behind an optional plus sign. Nothing is no
/// number, nor is a lone sign; the first character that is no digit, or that
/// takes the value above the maximum, says why a text is none.
pub proof fn law_parse_unsigned(s: &[char], radix: u32, max: u32, r: Result<u32, IntError>)
    requires
        2 <= radix <= 16,
        call_ensures(parse_unsigned, (s, radix, max), r),
    ensures
        reads_number(s@, radix as int, max as int, r),
{
    match r {
        Ok(v) => lemma_unsigned(s@, radix as int, max as int),
        Err(e) => lemma_unsigned(s@, radix as int, max as int),
    }
}

/// Whether this is what reading a number comes to.
pub open spec fn reads_number(s: Seq<char>, radix: int, max: int, r: Result<u32, IntError>) -> bool {
    let digits = behind_sign(s);
    match r {
        Ok(v) => {
            &&& digits.len() > 0
            &&& all_digits(digits, radix)
            &&& made_of(digits, radix) == v
            &&& v <= max
        },
        Err(e) => if s.len() == 0 {
            e == IntError::Empty
        } else if digits.len() == 0 {
            e == IntError::InvalidDigit
        } else {
            exists|i: int| #[trigger] stops_at(digits, i, radix, max, e)
        },
    }
}

/// The same, of the text.
pub proof fn lemma_unsigned(s: Seq<char>, radix: int, max: int)
    requires
        2 <= radix <= 16,
        0 <= max <= u32::MAX,
    ensures
        match unsigned(s, radix, max) {
            Ok(v) => reads_number(s, radix, max, Ok(v as u32)) && 0 <= v <= max,
            Err(e) => reads_number(s, radix, max, Err(e)),
        },
{
    if s.len() > 0 {
        let digits = behind_sign(s);
        if digits.len() == 0 {
            assert(s =~= seq!['+']);
        } else {
            assert(s != seq!['+']) by {
                if s == seq!['+'] {
                    assert(s[0] == '+');
                }
            }
            assert(digits.take(0).len() == 0);
            assert(digits.skip(0) =~= digits);
            lemma_read(digits, 0, radix, max);
            lemma_made_of_positive(digits, radix);
        }
    }
}

/// Digits never make a negative number.
proof fn lemma_made_of_positive(s: Seq<char>, radix: int)
    requires
        2 <= radix,
    ensures
        all_digits(s, radix) ==> made_of(s, radix) >= 0,
    decreases s.len(),
{
    if s.len() > 0 && all_digits(s, radix) {
        let front = s.drop_last();
        assert(all_digits(front, radix)) by {
            assert forall|i: int| 0 <= i < front.len() implies 0 <= worth(#[trigger] front[i])
                < radix by {
                assert(0 <= worth(s[i]) < radix);
            }
        }
        lemma_made_of_positive(front, radix);
        assert(0 <= worth(s[s.len() - 1]));
        assert(radix * made_of(front, radix) >= 0) by (nonlinear_arith)
            requires
                radix >= 2,
                made_of(front, radix) >= 0,
        ;
    }
}

/// What a wrong number is called.
pub proof fn law_number_errors(e: IntError, m: &'static str)
    requires
        call_ensures(IntError::message, (&e,), m),
    ensures
        e == IntError::Empty ==> m@ == "cannot parse integer from empty string"@,
        e == IntError::InvalidDigit ==> m@ == "invalid digit found in string"@,
        e == IntError::PosOverflow ==> m@ == "number too large to fit in target type"@,
{
}

/// The characters of a text make that text again, and texts are the same when
/// their characters are.
pub proof fn law_characters(
    s: &str,
    chars: Vec<char>,
    t: String,
    a: &[char],
    b: &[char],
    same: bool,
    x: &str,
    y: &str,
    alike: bool,
)
    requires
        call_ensures(chars_of, (s,), chars),
        call_ensures(string_of, (a,), t),
        call_ensures(same_chars, (a, b), same),
        call_ensures(same_text, (x, y), alike),
    ensures
        chars@ == s@,
        t@ == a@,
        same == (a@ == b@),
        alike == (x@ == y@),
{
}

/// Lower case changes the letters A to Z, each by 32, and nothing else; words
/// are the same when their lower case is.
pub proof fn law_case(
    s: &str,
    l: Vec<char>,
    i: int,
    w: &str,
    m: Vec<char>,
    same: bool,
)
    requires
        call_ensures(lower_chars, (s,), l),
        call_ensures(lower_chars, (w,), m),
        call_ensures(is_word, (s, w), same),
        0 <= i < s@.len(),
    ensures
        l@.len() == s@.len(),
        65 <= s@[i] as u32 <= 90 ==> l@[i] as u32 == s@[i] as u32 + 32,
        (s@[i] as u32) < 65 || s@[i] as u32 > 90 ==> l@[i] == s@[i],
        same == (l@ == m@),
{
}

/// The white space characters.
pub open spec fn blank(c: char) -> bool {
    let v = c as u32;
    ||| v == 9 || v == 10 || v == 11 || v == 12 || v == 13 || v == 32 || v == 0x85 || v == 0xA0
    ||| v == 0x1680 || (0x2000 <= v <= 0x200A) || v == 0x2028 || v == 0x2029
    ||| v == 0x202F || v == 0x205F || v == 0x3000
}

/// Trimming takes white space off both ends, all of it and nothing else.
pub proof fn law_trim(s: &str, t: Vec<char>)
    requires
        call_ensures(trimmed, (s,), t),
    ensures
        exists|a: int, b: int|
            0 <= a <= b <= s@.len() && t@ == #[trigger] s@.subrange(a, b) && (forall|i: int|
                0 <= i < a || b <= i < s@.len() ==> blank(#[trigger] s@[i])),
        t@.len() > 0 ==> !blank(t@[0]) && !blank(t@.last()),
{
    let x = trim_start(s@);
    lemma_trim_start(s@);
    lemma_trim_end(x);
    let a = s@.len() - x.len();
    let b = a + t@.len();
    assert(t@ =~= s@.subrange(a, b)) by {
        assert forall|i: int| 0 <= i < t@.len() implies t@[i] == s@[a + i] by {
            assert(x[i] == s@.skip(a)[i]);
        }
    }
    assert forall|i: int| 0 <= i < a || b <= i < s@.len() implies blank(#[trigger] s@[i]) by {
        if i >= b {
            assert(x[i - a] == s@.skip(a)[i - a]);
            assert(blank(x[i - a]));
        }
    }
    if t@.len() > 0 {
        assert(t@[0] == x[0]);
    }
}

/// Trimming at the start.
proof fn lemma_trim_start(s: Seq<char>)
    ensures
        trim_start(s).len() <= s.len(),
        trim_start(s) == s.skip(s.len() - trim_start(s).len()),
        forall|i: int| 0 <= i < s.len() - trim_start(s).len() ==> blank(#[trigger] s[i]),
        trim_start(s).len() > 0 ==> !blank(trim_start(s)[0]),
    decreases s.len(),
{
    if s.len() > 0 && crate::text::white_space(s[0]) {
        let rest = s.skip(1);
        lemma_trim_start(rest);
        assert(rest.skip(rest.len() - trim_start(s).len()) =~= s.skip(
            s.len() - trim_start(s).len(),
        ));
        assert forall|i: int| 0 <= i < s.len() - trim_start(s).len() implies blank(
            #[trigger] s[i],
        ) by {
            if i > 0 {
                assert(rest[i - 1] == s[i]);
            }
        }
    } else {
        assert(s.skip(0) =~= s);
    }
}

/// Trimming at the end.
proof fn lemma_trim_end(s: Seq<char>)
    ensures
        trim_end(s).len() <= s.len(),
        trim_end(s) == s.take(trim_end(s).len() as int),
        forall|i: int| trim_end(s).len() <= i < s.len() ==> blank(#[trigger] s[i]),
        trim_end(s).len() > 0 ==> !blank(trim_end(s).last()),
    decreases s.len(),
{
    if s.len() > 0 && crate::text::white_space(s.last()) {
        let rest = s.drop_last();
        lemma_trim_end(rest);
        assert(rest.take(trim_end(s).len() as int) =~= s.take(trim_end(s).len() as int));
        assert forall|i: int| trim_end(s).len() <= i < s.len() implies blank(#[trigger] s[i]) by {
            if i < rest.len() {
                assert(rest[i] == s[i]);
            }
        }
    } else {
        assert(s.take(s.len() as int) =~= s);
    }
}

/// Some pieces with a separator between each two.
pub open spec fn joined_by(pieces: Seq<Seq<char>>, sep: char) -> Seq<char>
    decreases pieces.len(),
{
    if pieces.len() == 0 {
        Seq::empty()
    } else if pieces.len() == 1 {
        pieces[0]
    } else {
        joined_by(pieces.drop_last(), sep).push(sep) + pieces.last()
    }
}

/// Splitting a text gives at least one piece, none of which holds the
/// separator, and joining them with it gives the text.
pub proof fn law_split(s: &str, sep: char, out: Vec<String>, i: int, j: int)
    requires
        call_ensures(split_text, (s, sep), out),
        0 <= i < out@.len(),
        0 <= j < out@[i]@.len(),
    ensures
        joined_by(texts(out@), sep) == s@,
        out@[i]@[j] != sep,
{
    lemma_split(s@, sep);
    assert(texts(out@)[i] == out@[i]@);
    assert(split(s@, sep)[i][j] != sep);
}

/// The same, of the pieces.
pub proof fn lemma_split(s: Seq<char>, sep: char)
    ensures
        split(s, sep).len() > 0,
        joined_by(split(s, sep), sep) == s,
        forall|i: int, j: int|
            0 <= i < split(s, sep).len() && 0 <= j < split(s, sep)[i].len()
                ==> #[trigger] split(s, sep)[i][j] != sep,
    decreases s.len(),
{
    if s.len() > 0 {
        let front = s.drop_last();
        let before = split(front, sep);
        let after = split(s, sep);
        lemma_split(front, sep);
        if s.last() == sep {
            assert(after.drop_last() =~= before);
            assert(joined_by(after, sep) =~= s);
        } else {
            let last = before.last();
            assert(after.drop_last() =~= before.drop_last());
            assert(after.last() =~= last.push(s.last()));
            if before.len() == 1 {
                assert(joined_by(after, sep) =~= s);
            } else {
                assert(joined_by(after, sep) =~= joined_by(before, sep).push(s.last()));
                assert(joined_by(after, sep) =~= s);
            }
        }
        assert forall|i: int, j: int|
            0 <= i < after.len() && 0 <= j < after[i].len() implies #[trigger] after[i][j]
            != sep by {
            if s.last() == sep {
                if i < before.len() {
                    assert(after[i] == before[i]);
                    assert(before[i][j] != sep);
                }
            } else if i < before.len() - 1 {
                assert(after[i] == before[i]);
                assert(before[i][j] != sep);
            } else {
                assert(after[i] =~= before[before.len() - 1].push(s.last()));
                if j < before[before.len() - 1].len() {
                    assert(before[before.len() - 1][j] != sep);
                }
            }
        }
    }
}

} // verus!
