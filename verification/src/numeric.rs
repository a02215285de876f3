//! Numbers in text: integers, their digits, and the grammar of floating-point literals.

use crate::text;
use vstd::prelude::*;

verus! {

/// Whether `c` is an ASCII decimal digit.
pub open spec fn digit(c: char) -> bool {
    '0' <= c <= '9'
}

/// Tests for an ASCII decimal digit.
pub fn is_digit(c: char) -> (r: bool)
    ensures
        r == digit(c),
{
    '0' <= c && c <= '9'
}

/// The value of a decimal digit.
pub open spec fn digit_value(c: char) -> int {
    c as int - '0' as int
}

/// Whether every character is a decimal digit.
pub open spec fn all_digits(s: Seq<char>) -> bool {
    forall|i: int| 0 <= i < s.len() ==> digit(s[i])
}

/// The number that a run of decimal digits denotes.
pub open spec fn digits_value(s: Seq<char>) -> int
    decreases s.len(),
{
    if s.len() == 0 {
        0
    } else {
        10 * digits_value(s.drop_last()) + digit_value(s.last())
    }
}

/// The text without one leading plus sign.
pub open spec fn without_plus(s: Seq<char>) -> Seq<char> {
    if s.len() > 0 && s[0] == '+' {
        s.skip(1)
    } else {
        s
    }
}

/// The unsigned integer that a text denotes: an optional plus sign and at least one digit.
pub open spec fn unsigned(s: Seq<char>) -> Option<u64> {
    let digits = without_plus(s);
    if digits.len() > 0 && all_digits(digits) && digits_value(digits) <= u64::MAX {
        Some(digits_value(digits) as u64)
    } else {
        None
    }
}

proof fn lemma_digits_value_grows(s: Seq<char>, n: int)
    requires
        0 <= n <= s.len(),
        all_digits(s),
    ensures
        0 <= digits_value(s.take(n)) <= digits_value(s),
    decreases s.len(),
{
    if n == s.len() {
        assert(s.take(n) == s);
        if s.len() > 0 {
            assert(digit(s.last()));
            lemma_digits_value_grows(s.drop_last(), n - 1);
        }
    } else {
        assert(s.drop_last().take(n) == s.take(n));
        assert(digit(s.last()));
        lemma_digits_value_grows(s.drop_last(), n);
    }
}

/// Reads the digits from `from` on as an unsigned integer.
fn read_digits(s: &Vec<char>, from: usize) -> (r: Option<u64>)
    requires
        from <= s@.len(),
    ensures
        ({
            let digits = s@.skip(from as int);
            r == (if digits.len() > 0 && all_digits(digits) && digits_value(digits) <= u64::MAX {
                Some(digits_value(digits) as u64)
            } else {
                None
            })
        }),
{
    let ghost digits = s@.skip(from as int);
    if from == s.len() {
        return None;
    }
    let mut value: u64 = 0;
    let mut i: usize = from;
    let mut fits: bool = true;
    while i < s.len()
        invariant
            from <= i <= s@.len(),
            digits == s@.skip(from as int),
            all_digits(digits.take(i - from)),
            fits ==> value == digits_value(digits.take(i - from)),
            !fits ==> digits_value(digits.take(i - from)) > u64::MAX,
        decreases s@.len() - i,
    {
        let c: char = s[i];
        assert(c == digits[i - from]);
        if !is_digit(c) {
            return None;
        }
        let ghost next = digits.take(i - from + 1);
        assert(next.drop_last() == digits.take(i - from));
        assert(next.last() == c);
        assert(all_digits(next)) by {
            assert forall|k: int| 0 <= k < next.len() implies digit(next[k]) by {
                if k < i - from {
                    assert(digit(digits.take(i - from)[k]));
                }
            }
        }
        proof {
            lemma_digits_value_grows(next, i - from);
            assert(next.take(i - from) == digits.take(i - from));
        }
        let d: u64 = (c as u32 - '0' as u32) as u64;
        if fits {
            if value > (u64::MAX - d) / 10 {
                fits = false;
            } else {
                value = value * 10 + d;
            }
        }
        i = i + 1;
    }
    assert(digits.take(i - from) == digits);
    if fits {
        Some(value)
    } else {
        None
    }
}

/// Reads an unsigned integer.
pub fn parse_unsigned(s: &str) -> (r: Option<u64>)
    ensures
        r == unsigned(s@),
{
    let cs: Vec<char> = text::chars_of(s);
    if cs.len() > 0 && cs[0] == '+' {
        read_digits(&cs, 1)
    } else {
        assert(cs@.skip(0) == cs@);
        read_digits(&cs, 0)
    }
}

/// The signed integer that a text denotes: an optional sign and at least one digit.
pub open spec fn signed(s: Seq<char>) -> Option<i64> {
    let digits = without_sign(s);
    let value = if s.len() > 0 && s[0] == '-' {
        -digits_value(digits)
    } else {
        digits_value(digits)
    };
    if digits.len() > 0 && all_digits(digits) && i64::MIN <= value <= i64::MAX {
        Some(value as i64)
    } else {
        None
    }
}

/// Reads a signed integer.
pub fn parse_signed(s: &str) -> (r: Option<i64>)
    ensures
        r == signed(s@),
{
    let cs: Vec<char> = text::chars_of(s);
    let negative: bool = cs.len() > 0 && cs[0] == '-';
    let from: usize = if negative || (cs.len() > 0 && cs[0] == '+') {
        1
    } else {
        0
    };
    assert(without_sign(cs@) == cs@.skip(from as int));
    let ghost digits = without_sign(cs@);
    proof {
        if all_digits(digits) {
            lemma_digits_value_grows(digits, 0);
            assert(digits.take(0).len() == 0);
        }
    }
    match read_digits(&cs, from) {
        Some(value) => {
            if negative {
                if value <= 9223372036854775807 {
                    Some(-(value as i64))
                } else if value == 9223372036854775808 {
                    Some(i64::MIN)
                } else {
                    None
                }
            } else if value <= 9223372036854775807 {
                Some(value as i64)
            } else {
                None
            }
        },
        None => None,
    }
}

/// The length of the leading run of decimal digits.
pub open spec fn digit_run(s: Seq<char>) -> int
    decreases s.len(),
{
    if s.len() > 0 && digit(s[0]) {
        1 + digit_run(s.skip(1))
    } else {
        0
    }
}

fn count_digits(s: &Vec<char>, from: usize) -> (end: usize)
    requires
        from <= s@.len(),
    ensures
        from <= end <= s@.len(),
        end - from == digit_run(s@.skip(from as int)),
{
    let mut end: usize = from;
    while end < s.len() && is_digit(s[end])
        invariant
            from <= end <= s@.len(),
            digit_run(s@.skip(from as int)) == (end - from) + digit_run(s@.skip(end as int)),
        decreases s@.len() - end,
    {
        assert(s@.skip(end as int).skip(1) == s@.skip(end + 1));
        end = end + 1;
    }
    end
}

/// The text without one leading sign.
pub open spec fn without_sign(s: Seq<char>) -> Seq<char> {
    if s.len() > 0 && (s[0] == '+' || s[0] == '-') {
        s.skip(1)
    } else {
        s
    }
}

/// An exponent: `e` in either case, an optional sign, and at least one digit to the end.
pub open spec fn exponent(s: Seq<char>) -> bool {
    s.len() > 0 && (s[0] == 'e' || s[0] == 'E') && ({
        let digits = without_sign(s.skip(1));
        digits.len() > 0 && digit_run(digits) == digits.len()
    })
}

/// Digits with an optional point among or around them, and an optional exponent.
pub open spec fn number(s: Seq<char>) -> bool {
    let whole = digit_run(s);
    let rest = s.skip(whole);
    if rest.len() > 0 && rest[0] == '.' {
        let fraction = digit_run(rest.skip(1));
        let tail = rest.skip(1 + fraction);
        whole + fraction > 0 && (tail.len() == 0 || exponent(tail))
    } else {
        whole > 0 && (rest.len() == 0 || exponent(rest))
    }
}

/// The lower-case form of an ASCII letter; any other character is left alone.
pub open spec fn lower(c: char) -> char {
    if 'A' <= c <= 'Z' {
        (c as u32 + 32) as char
    } else {
        c
    }
}

/// Whether `s` is `word` up to the case of ASCII letters.
pub open spec fn reads(s: Seq<char>, word: Seq<char>) -> bool {
    s.len() == word.len() && forall|i: int| 0 <= i < s.len() ==> lower(s[i]) == lower(word[i])
}

/// The literals that denote a double-precision number: an optional sign, then `inf`, `infinity`
/// or `nan` in any case, or a number.
pub open spec fn float_literal(s: Seq<char>) -> bool {
    let body = without_sign(s);
    reads(body, "inf"@) || reads(body, "infinity"@) || reads(body, "nan"@) || number(body)
}

/// Converts an ASCII letter to lower case.
pub fn to_lower(c: char) -> (r: char)
    ensures
        r == lower(c),
{
    if 'A' <= c && c <= 'Z' {
        let code: u8 = c as u8;
        (code + 32) as char
    } else {
        c
    }
}

/// Tests whether the characters from `from` on are `word` up to case.
fn reads_from(s: &Vec<char>, from: usize, word: &str) -> (r: bool)
    requires
        from <= s@.len(),
    ensures
        r == reads(s@.skip(from as int), word@),
{
    let w: Vec<char> = text::chars_of(word);
    let length: usize = s.len();
    if length - from != w.len() {
        return false;
    }
    let mut i: usize = 0;
    while i < w.len()
        invariant
            i <= w@.len(),
            w@ == word@,
            length == s@.len(),
            from + w@.len() == length,
            forall|k: int| 0 <= k < i ==> lower(#[trigger] s@.skip(from as int)[k]) == lower(w@[k]),
        decreases w@.len() - i,
    {
        if to_lower(s[from + i]) != to_lower(w[i]) {
            assert(lower(s@.skip(from as int)[i as int]) != lower(word@[i as int]));
            return false;
        }
        i = i + 1;
    }
    true
}

/// Tests two texts for equality up to the case of ASCII letters.
pub fn reads_same(a: &str, b: &str) -> (r: bool)
    ensures
        r == reads(a@, b@),
{
    let cs: Vec<char> = text::chars_of(a);
    assert(cs@.skip(0) == cs@);
    reads_from(&cs, 0, b)
}

fn is_exponent(s: &Vec<char>, from: usize) -> (r: bool)
    requires
        from <= s@.len(),
    ensures
        r == exponent(s@.skip(from as int)),
{
    if from == s.len() || !(s[from] == 'e' || s[from] == 'E') {
        return false;
    }
    let mut start: usize = from + 1;
    assert(s@.skip(from as int).skip(1) == s@.skip(start as int));
    if start < s.len() && (s[start] == '+' || s[start] == '-') {
        assert(s@.skip(start as int).skip(1) == s@.skip(start + 1));
        start = start + 1;
    }
    let end: usize = count_digits(s, start);
    start < s.len() && end == s.len()
}

fn is_number(s: &Vec<char>, from: usize) -> (r: bool)
    requires
        from <= s@.len(),
    ensures
        r == number(s@.skip(from as int)),
{
    let ghost body = s@.skip(from as int);
    let whole: usize = count_digits(s, from);
    assert(body.skip(whole - from) == s@.skip(whole as int));
    if whole < s.len() && s[whole] == '.' {
        assert(s@.skip(whole as int).skip(1) == s@.skip(whole + 1));
        let end: usize = count_digits(s, whole + 1);
        assert(s@.skip(whole as int).skip(end - whole) == s@.skip(end as int));
        (whole > from || end > whole + 1) && (end == s.len() || is_exponent(s, end))
    } else {
        whole > from && (whole == s.len() || is_exponent(s, whole))
    }
}

/// Tests whether a text denotes a double-precision number.
pub fn is_float_literal(s: &str) -> (r: bool)
    ensures
        r == float_literal(s@),
{
    let cs: Vec<char> = text::chars_of(s);
    let from: usize = if cs.len() > 0 && (cs[0] == '+' || cs[0] == '-') {
        1
    } else {
        0
    };
    assert(without_sign(cs@) == cs@.skip(from as int));
    reads_from(&cs, from, "inf") || reads_from(&cs, from, "infinity") || reads_from(
        &cs,
        from,
        "nan",
    ) || is_number(&cs, from)
}

/// The character of a decimal digit.
pub open spec fn digit_char(value: int) -> char {
    if value == 0 {
        '0'
    } else if value == 1 {
        '1'
    } else if value == 2 {
        '2'
    } else if value == 3 {
        '3'
    } else if value == 4 {
        '4'
    } else if value == 5 {
        '5'
    } else if value == 6 {
        '6'
    } else if value == 7 {
        '7'
    } else if value == 8 {
        '8'
    } else {
        '9'
    }
}

fn make_digit_char(value: u64) -> (c: char)
    ensures
        c == digit_char(value as int),
{
    match value {
        0 => '0',
        1 => '1',
        2 => '2',
        3 => '3',
        4 => '4',
        5 => '5',
        6 => '6',
        7 => '7',
        8 => '8',
        _ => '9',
    }
}

/// A natural number in decimal, without leading zeros.
pub open spec fn decimal(n: nat) -> Seq<char>
    decreases n,
{
    if n < 10 {
        seq![digit_char(n as int)]
    } else {
        decimal(n / 10).push(digit_char((n % 10) as int))
    }
}

/// Writes a natural number in decimal.
pub fn write_decimal(n: u64) -> (out: String)
    ensures
        out@ == decimal(n as nat),
    decreases n,
{
    if n < 10 {
        let mut out: String = String::new();
        out.push(make_digit_char(n));
        assert(out@ =~= decimal(n as nat));
        out
    } else {
        let mut out: String = write_decimal(n / 10);
        out.push(make_digit_char(n % 10));
        out
    }
}

/// What is written in decimal reads back as the same number.
pub proof fn decimal_reads_back(n: nat)
    ensures
        decimal(n).len() > 0,
        all_digits(decimal(n)),
        digits_value(decimal(n)) == n,
    decreases n,
{
    let s = decimal(n);
    if n < 10 {
        assert(digits_value(seq![]) == 0);
        assert(s.drop_last() =~= seq![]);
    } else {
        decimal_reads_back(n / 10);
        assert(s.drop_last() =~= decimal(n / 10));
        assert forall|i: int| 0 <= i < s.len() implies digit(s[i]) by {
            if i < s.len() - 1 {
                assert(s[i] == decimal(n / 10)[i]);
            }
        }
    }
}

/// An integer in decimal, with a minus sign where it is negative.
pub open spec fn signed_decimal(n: int) -> Seq<char> {
    if n < 0 {
        seq!['-'] + decimal((-n) as nat)
    } else {
        decimal(n as nat)
    }
}

/// Writes an integer in decimal.
pub fn write_signed_decimal(n: i64) -> (out: String)
    ensures
        out@ == signed_decimal(n as int),
{
    if n >= 0 {
        return write_decimal(n as u64);
    }
    let magnitude: u64 = (-(n + 1)) as u64 + 1;
    let mut out: String = String::new();
    out.push('-');
    let digits: String = write_decimal(magnitude);
    out.append(digits.as_str());
    assert(out@ =~= signed_decimal(n as int));
    out
}

/// A whole number reads back from its decimal digits and sign.
pub proof fn signed_decimal_reads_back(n: int)
    requires
        i64::MIN <= n <= i64::MAX,
    ensures
        signed(signed_decimal(n)) == Some(n as i64),
{
    let size: nat = if n < 0 {
        (-n) as nat
    } else {
        n as nat
    };
    decimal_reads_back(size);
    let digits = decimal(size);
    if n < 0 {
        assert(signed_decimal(n)[0] == '-');
        assert(without_sign(signed_decimal(n)) =~= digits);
    } else {
        assert(digit(digits[0]));
        assert(without_sign(digits) == digits);
    }
}

/// A count reads back from its decimal digits.
pub proof fn unsigned_decimal_reads_back(n: nat)
    requires
        n <= u64::MAX,
    ensures
        unsigned(decimal(n)) == Some(n as u64),
{
    decimal_reads_back(n);
    let digits = decimal(n);
    assert(digit(digits[0]));
    assert(without_plus(digits) == digits);
}

/// The value of digits is that of a positional system: another digit at the end makes ten times as
/// much and adds its own value.
pub proof fn digits_are_worth_ten_times_more_to_the_left(s: Seq<char>, c: char)
    ensures
        digits_value(s.push(c)) == 10 * digits_value(s) + (c as int - 48),
        digits_value(seq![]) == 0,
{
    assert(s.push(c).drop_last() =~= s);
    assert('0' as int == 48);
}

/// Words read alike are of the same length, and letter by letter the same but for their case.
pub proof fn reading_alike_ignores_case_only(s: Seq<char>, word: Seq<char>)
    ensures
        reads(s, s),
        reads(s, word) == reads(word, s),
        reads(s, word) ==> s.len() == word.len(),
        reads(s, word) && (forall|i: int|
            0 <= i < s.len() ==> !('A' <= #[trigger] s[i] <= 'Z') && !('A' <= word[i] <= 'Z'))
            ==> s == word,
{
    if reads(s, word) && (forall|i: int|
        0 <= i < s.len() ==> !('A' <= #[trigger] s[i] <= 'Z') && !('A' <= word[i] <= 'Z')) {
        assert forall|i: int| 0 <= i < s.len() implies s[i] == word[i] by {
            assert(lower(s[i]) == lower(word[i]));
        }
        assert(s =~= word);
    }
}

proof fn lemma_digit_run(s: Seq<char>, rest: Seq<char>)
    requires
        all_digits(s),
        rest.len() > 0 ==> !digit(rest[0]),
    ensures
        digit_run(s + rest) == s.len(),
    decreases s.len(),
{
    let t = s + rest;
    if s.len() > 0 {
        assert(t[0] == s[0]);
        assert(t.skip(1) =~= s.skip(1) + rest);
        assert(all_digits(s.skip(1))) by {
            assert forall|i: int| 0 <= i < s.skip(1).len() implies digit(s.skip(1)[i]) by {
                assert(s.skip(1)[i] == s[i + 1]);
            }
        }
        lemma_digit_run(s.skip(1), rest);
    } else if t.len() > 0 {
        assert(t[0] == rest[0]);
    }
}

/// Digits are a number, with a point between them or at one of their ends, and with an exponent
/// behind them; a point alone is none.
pub proof fn digits_are_numbers(whole: Seq<char>, fraction: Seq<char>, power: Seq<char>)
    requires
        all_digits(whole),
        all_digits(fraction),
        all_digits(power),
    ensures
        whole.len() > 0 ==> float_literal(whole),
        whole.len() + fraction.len() > 0 <==> number(whole + seq!['.'] + fraction),
        whole.len() + fraction.len() > 0 ==> float_literal(whole + seq!['.'] + fraction),
        whole.len() > 0 && power.len() > 0 ==> float_literal(whole + seq!['e'] + power)
            && float_literal(whole + seq!['E'] + power),
        number(whole + seq!['e']) == false,
{
    lemma_digit_run(whole, Seq::empty());
    assert(whole + Seq::<char>::empty() =~= whole);
    if whole.len() > 0 {
        assert(without_sign(whole) == whole);
        assert(whole.skip(whole.len() as int).len() == 0);
    }
    let s = whole + seq!['.'] + fraction;
    assert(s =~= whole + (seq!['.'] + fraction));
    lemma_digit_run(whole, seq!['.'] + fraction);
    assert(s.skip(whole.len() as int) =~= seq!['.'] + fraction);
    assert((seq!['.'] + fraction).skip(1) =~= fraction);
    lemma_digit_run(fraction, Seq::empty());
    assert(fraction + Seq::<char>::empty() =~= fraction);
    assert((seq!['.'] + fraction).skip(1 + fraction.len() as int).len() == 0);
    assert(without_sign(s) == s);
    lemma_with_exponent(whole, 'e', power);
    lemma_with_exponent(whole, 'E', power);
    lemma_digit_run(whole, seq!['e']);
    assert((whole + seq!['e']).skip(whole.len() as int) =~= seq!['e']);
    assert(seq!['e'].skip(1) =~= Seq::<char>::empty());
}

proof fn lemma_with_exponent(whole: Seq<char>, mark: char, power: Seq<char>)
    requires
        all_digits(whole),
        all_digits(power),
        mark == 'e' || mark == 'E',
    ensures
        whole.len() > 0 && power.len() > 0 ==> float_literal(whole + seq![mark] + power),
{
    let s = whole + seq![mark] + power;
    let tail = seq![mark] + power;
    assert(s =~= whole + tail);
    lemma_digit_run(whole, tail);
    assert(s.skip(whole.len() as int) =~= tail);
    assert(tail.skip(1) =~= power);
    lemma_digit_run(power, Seq::empty());
    assert(power + Seq::<char>::empty() =~= power);
    if whole.len() > 0 && power.len() > 0 {
        assert(without_sign(power) == power);
        assert(exponent(tail));
        assert(s[0] == whole[0]);
        assert(without_sign(s) == s);
    }
}

/// A sign before a number without one changes nothing of its being a number; what begins neither
/// like a number nor like the words for infinity and for no number is none.
pub proof fn numbers_may_have_a_sign(s: Seq<char>)
    ensures
        s.len() == 0 || (s[0] != '+' && s[0] != '-') ==> float_literal(seq!['-'] + s)
            == float_literal(s) && float_literal(seq!['+'] + s) == float_literal(s),
        s.len() == 0 || (s[0] != '+' && s[0] != '-') ==> signed(seq!['+'] + s) == signed(s)
            && unsigned(seq!['+'] + s) == unsigned(s),
        s.len() > 0 && !digit(s[0]) && s[0] != '+' && s[0] != '-' && s[0] != '.' && s[0] != 'i'
            && s[0] != 'I' && s[0] != 'n' && s[0] != 'N' ==> !float_literal(s),
        s.len() > 0 && !digit(s[0]) && s[0] != '+' ==> unsigned(s) is None,
        s.len() > 0 && !digit(s[0]) && s[0] != '+' && s[0] != '-' ==> signed(s) is None,
        float_literal(Seq::empty()) == false,
{
    assert((seq!['-'] + s).skip(1) =~= s);
    assert((seq!['+'] + s).skip(1) =~= s);
    reveal_strlit("inf");
    reveal_strlit("infinity");
    reveal_strlit("nan");
    assert("inf"@[0] == 'i' && "infinity"@[0] == 'i' && "nan"@[0] == 'n');
    assert("inf"@.len() == 3 && "infinity"@.len() == 8 && "nan"@.len() == 3);
    if s.len() > 0 {
        if reads(s, "inf"@) {
            lemma_reads_first(s, "inf"@);
        }
        if reads(s, "infinity"@) {
            lemma_reads_first(s, "infinity"@);
        }
        if reads(s, "nan"@) {
            lemma_reads_first(s, "nan"@);
        }
        assert(s.skip(0) =~= s);
    }
    assert(Seq::<char>::empty().skip(0) =~= Seq::<char>::empty());
}

proof fn lemma_reads_first(s: Seq<char>, word: Seq<char>)
    requires
        s.len() > 0,
        word.len() > 0,
        word[0] == 'i' || word[0] == 'n',
        reads(s, word),
    ensures
        s[0] == 'i' || s[0] == 'I' || s[0] == 'n' || s[0] == 'N',
{
    assert(lower(s[0]) == lower(word[0]));
}

} // verus!
