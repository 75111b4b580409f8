//! Texts, and decimal numerals: printing a `usize`, and reading one back.

use vstd::prelude::*;

verus! {

/// The character of a decimal digit.
pub open spec fn digit_char(d: nat) -> char
    recommends
        d < 10,
{
    (48 + d) as char
}

/// The decimal numeral of `n`, without leading zeros.
pub open spec fn decimal(n: nat) -> Seq<char>
    decreases n,
{
    if n < 10 {
        seq![digit_char(n)]
    } else {
        decimal(n / 10).push(digit_char(n % 10))
    }
}

pub open spec fn is_digit(c: char) -> bool {
    '0' <= c <= '9'
}

pub open spec fn digit_value(c: char) -> nat
    recommends
        is_digit(c),
{
    (c as int - '0' as int) as nat
}

/// Whether `s` is one or more decimal digits.
pub open spec fn is_numeral(s: Seq<char>) -> bool {
    s.len() > 0 && forall|i: int| 0 <= i < s.len() ==> is_digit(#[trigger] s[i])
}

/// The number that a sequence of decimal digits denotes.
pub open spec fn numeral_value(s: Seq<char>) -> nat
    decreases s.len(),
{
    if s.len() == 0 {
        0
    } else {
        10 * numeral_value(s.drop_last()) + digit_value(s.last())
    }
}

/// `s` without the plus sign that it may begin with.
pub open spec fn unsigned_part(s: Seq<char>) -> Seq<char> {
    if s.len() > 0 && s[0] == '+' {
        s.skip(1)
    } else {
        s
    }
}

/// The `usize` that `s` denotes: an optional plus sign and decimal digits, and
/// nothing else, of a value that fits.
pub open spec fn usize_of(s: Seq<char>) -> Option<usize> {
    let digits = unsigned_part(s);
    if is_numeral(digits) && numeral_value(digits) <= usize::MAX {
        Some(numeral_value(digits) as usize)
    } else {
        None
    }
}

fn digit_str(d: usize) -> (s: &'static str)
    requires
        d < 10,
    ensures
        s@ == seq![digit_char(d as nat)],
{
    proof {
        reveal_strlit("0");
        reveal_strlit("1");
        reveal_strlit("2");
        reveal_strlit("3");
        reveal_strlit("4");
        reveal_strlit("5");
        reveal_strlit("6");
        reveal_strlit("7");
        reveal_strlit("8");
        reveal_strlit("9");
    }
    let s: &'static str = match d {
        0 => "0",
        1 => "1",
        2 => "2",
        3 => "3",
        4 => "4",
        5 => "5",
        6 => "6",
        7 => "7",
        8 => "8",
        _ => "9",
    };
    assert(s@ =~= seq![digit_char(d as nat)]);
    s
}

/// Prints `n` in decimal.
pub fn decimal_string(n: usize) -> (s: String)
    ensures
        s@ == decimal(n as nat),
    decreases n,
{
    if n < 10 {
        digit_str(n).to_string()
    } else {
        let mut s = decimal_string(n / 10);
        s.append(digit_str(n % 10));
        assert(s@ =~= decimal(n as nat));
        s
    }
}

/// The characters of each string.
pub open spec fn texts(strings: Seq<String>) -> Seq<Seq<char>> {
    Seq::new(strings.len(), |i: int| strings[i]@)
}

/// The characters of `s`, in order.
pub(crate) fn chars_of(s: &str) -> (chars: Vec<char>)
    ensures
        chars@ == s@,
{
    let mut chars: Vec<char> = Vec::new();
    for c in it: s.chars()
        invariant
            chars@ == it.seq().take(it.index() as int),
            it.seq() == s@,
    {
        chars.push(c);
        assert(chars@ =~= it.seq().take(it.index() + 1));
    }
    assert(chars@ =~= s@);
    chars
}

proof fn lemma_prefix_value(s: Seq<char>, k: int)
    requires
        0 <= k <= s.len(),
    ensures
        numeral_value(s.take(k)) <= numeral_value(s),
    decreases s.len(),
{
    if k == s.len() {
        assert(s.take(k) =~= s);
    } else {
        lemma_prefix_value(s.drop_last(), k);
        assert(s.drop_last().take(k) =~= s.take(k));
    }
}

/// Reads a `usize`: an optional plus sign and decimal digits.
pub fn parse_usize(s: &str) -> (n: Option<usize>)
    ensures
        n == usize_of(s@),
{
    let chars = chars_of(s);
    let start: usize = if chars.len() > 0 && chars[0] == '+' {
        1
    } else {
        0
    };
    let ghost digits = unsigned_part(s@);
    assert(digits =~= s@.skip(start as int));
    if start == chars.len() {
        return None;
    }
    let mut value: usize = 0;
    let mut i: usize = start;
    while i < chars.len()
        invariant
            chars@ == s@,
            start <= i <= chars.len(),
            start <= 1,
            digits == unsigned_part(s@),
            digits == s@.skip(start as int),
            forall|j: int| 0 <= j < i - start ==> is_digit(#[trigger] digits[j]),
            value == numeral_value(digits.take(i - start)),
        decreases chars.len() - i,
    {
        let c = chars[i];
        let ghost k = i - start;
        assert(digits[k] == c);
        if c < '0' || '9' < c {
            return None;
        }
        let d: usize = (c as u32 - '0' as u32) as usize;
        proof {
            assert(digits.take(k + 1).drop_last() =~= digits.take(k));
            lemma_prefix_value(digits, k + 1);
        }
        match value.checked_mul(10) {
            None => {
                return None;
            },
            Some(tens) => match tens.checked_add(d) {
                None => {
                    return None;
                },
                Some(sum) => {
                    value = sum;
                },
            },
        }
        i += 1;
    }
    assert(digits.take(i - start) =~= digits);
    Some(value)
}

proof fn lemma_decimal_reads_back(n: nat)
    ensures
        is_numeral(decimal(n)),
        numeral_value(decimal(n)) == n,
    decreases n,
{
    if n < 10 {
        assert(decimal(n).drop_last() =~= Seq::<char>::empty());
        assert(numeral_value(decimal(n).drop_last()) == 0);
    } else {
        lemma_decimal_reads_back(n / 10);
        assert(decimal(n).drop_last() =~= decimal(n / 10));
        assert forall|i: int| 0 <= i < decimal(n).len() implies is_digit(
            #[trigger] decimal(n)[i],
        ) by {
            if i < decimal(n / 10).len() {
                assert(decimal(n)[i] == decimal(n / 10)[i]);
            }
        }
    }
}

/// A number is printed in digits alone, and reads back as itself, with or
/// without a plus sign.
pub proof fn decimal_reads_back(n: usize)
    ensures
        is_numeral(decimal(n as nat)),
        usize_of(decimal(n as nat)) == Some(n),
        usize_of(seq!['+'] + decimal(n as nat)) == Some(n),
{
    lemma_decimal_reads_back(n as nat);
    let d = decimal(n as nat);
    assert(is_digit(d[0]));
    assert((seq!['+'] + d).skip(1) =~= d);
}

/// Different numbers are printed differently.
pub proof fn decimal_is_injective(m: nat, n: nat)
    requires
        decimal(m) == decimal(n),
    ensures
        m == n,
{
    lemma_decimal_reads_back(m);
    lemma_decimal_reads_back(n);
}

/// A printed number begins with a zero only where it is zero.
pub proof fn decimal_has_no_leading_zero(n: nat)
    ensures
        decimal(n).len() > 0,
        decimal(n)[0] == '0' ==> n == 0 && decimal(n).len() == 1,
    decreases n,
{
    if n >= 10 {
        decimal_has_no_leading_zero(n / 10);
        assert(decimal(n)[0] == decimal(n / 10)[0]);
    }
}

/// Digits are read from the left: a further digit makes ten of what came before
/// it, and adds itself.
pub proof fn digits_are_read_from_the_left(s: Seq<char>, c: char)
    requires
        '0' <= c <= '9',
    ensures
        numeral_value(Seq::empty()) == 0,
        numeral_value(s.push(c)) == 10 * numeral_value(s) + (c as int - 48),
{
    assert(s.push(c).drop_last() =~= s);
}

/// Characters are read as a number, with a plus sign before them or without, if
/// and only if there are some, each is one of the digits from `0` to `9`, and
/// the value fits; the number is that value.
pub proof fn numbers_are_signed_digits(digits: Seq<char>)
    ensures
        usize_of(seq!['+'] + digits) is Some <==> digits.len() > 0 && numeral_value(digits)
            <= usize::MAX && forall|i: int|
            0 <= i < digits.len() ==> '0' <= #[trigger] digits[i] <= '9',
        usize_of(seq!['+'] + digits) is Some ==> usize_of(seq!['+'] + digits)->0 == numeral_value(
            digits,
        ),
        digits.len() == 0 || digits[0] != '+' ==> usize_of(digits) == usize_of(
            seq!['+'] + digits,
        ),
{
    let signed = seq!['+'] + digits;
    assert(signed[0] == '+');
    assert(signed.skip(1) =~= digits);
    assert(is_numeral(digits) <==> digits.len() > 0 && forall|i: int|
        0 <= i < digits.len() ==> '0' <= #[trigger] digits[i] <= '9') by {
        assert forall|i: int| 0 <= i < digits.len() implies is_digit(#[trigger] digits[i]) == ('0'
            <= digits[i] && digits[i] <= '9') by {}
    }
}

/// Each string stands for its own characters, in its own place.
pub proof fn texts_keep_their_places(strings: Seq<String>)
    ensures
        texts(strings).len() == strings.len(),
        forall|i: int| 0 <= i < strings.len() ==> #[trigger] texts(strings)[i] == strings[i]@,
{
}

} // verus!
