use vstd::prelude::*;

verus! {

/// Whether `c` is one of the ASCII digits `0` to `9`.
pub open spec fn is_digit(c: char) -> bool {
    '0' <= c && c <= '9'
}

/// The value of the ASCII digit `c`.
pub open spec fn digit_value(c: char) -> int {
    (c as u32) - ('0' as u32)
}

/// Whether `s` is a non-empty run of ASCII digits.
pub open spec fn all_digits(s: Seq<char>) -> bool {
    s.len() > 0 && forall|i: int| 0 <= i < s.len() ==> is_digit(#[trigger] s[i])
}

/// The number that the digits of `s` spell in base ten, most significant first.
pub open spec fn digits_value(s: Seq<char>) -> int
    decreases s.len(),
{
    if s.len() == 0 {
        0
    } else {
        digits_value(s.drop_last()) * 10 + digit_value(s.last())
    }
}

/// The integer written by `s`: an optional `+` (or `-`, where `signed` holds)
/// followed by one or more ASCII digits, and nothing else.
pub open spec fn decimal_value(s: Seq<char>, signed: bool) -> Option<int> {
    if s.len() > 0 && s[0] == '+' && all_digits(s.skip(1)) {
        Some(digits_value(s.skip(1)))
    } else if signed && s.len() > 0 && s[0] == '-' && all_digits(s.skip(1)) {
        Some(-digits_value(s.skip(1)))
    } else if all_digits(s) {
        Some(digits_value(s))
    } else {
        None
    }
}

/// What `s` parses to as an `i32`: its decimal value, where that is in range.
pub open spec fn i32_of(s: Seq<char>) -> Option<i32> {
    match decimal_value(s, true) {
        Some(v) => if i32::MIN <= v <= i32::MAX {
            Some(v as i32)
        } else {
            None
        },
        None => None,
    }
}

/// What `s` parses to as a `usize`: its unsigned decimal value, where that is in range.
pub open spec fn usize_of(s: Seq<char>) -> Option<usize> {
    match decimal_value(s, false) {
        Some(v) => if 0 <= v <= usize::MAX {
            Some(v as usize)
        } else {
            None
        },
        None => None,
    }
}

/// Relies on `<i32 as FromStr>::from_str`: an optional `+` or `-` sign followed by
/// decimal digits only, with an error on anything else or on overflow.
#[verifier::external_body]
fn parse_i32(s: &str) -> (r: Option<i32>)
    ensures
        r == i32_of(s@),
{
    s.parse::<i32>().ok()
}

/// Relies on `<usize as FromStr>::from_str`: an optional `+` sign followed by
/// decimal digits only, with an error on anything else or on overflow.
#[verifier::external_body]
fn parse_usize(s: &str) -> (r: Option<usize>)
    ensures
        r == usize_of(s@),
{
    s.parse::<usize>().ok()
}

/// An integer type that a half of a pair can be read as.
pub trait DecimalInt: Sized {
    /// The value that the text `s` denotes in this type, if any.
    spec fn parsed(s: Seq<char>) -> Option<Self>;

    /// Reads `s` as a decimal integer of this type.
    fn parse_decimal(s: &str) -> (r: Option<Self>)
        ensures
            r == Self::parsed(s@),
    ;
}

impl DecimalInt for i32 {
    open spec fn parsed(s: Seq<char>) -> Option<i32> {
        i32_of(s)
    }

    fn parse_decimal(s: &str) -> (r: Option<i32>) {
        parse_i32(s)
    }
}

impl DecimalInt for usize {
    open spec fn parsed(s: Seq<char>) -> Option<usize> {
        usize_of(s)
    }

    fn parse_decimal(s: &str) -> (r: Option<usize>) {
        parse_usize(s)
    }
}

/// The pair that `s` denotes: the text before the first `separator` and the text
/// after it, each read as a `T`; `None` when there is no separator or either half
/// does not read.
pub open spec fn pair_of<T: DecimalInt>(s: Seq<char>, separator: char) -> Option<(T, T)> {
    match s.index_of_first(separator) {
        Some(k) => match (T::parsed(s.take(k)), T::parsed(s.skip(k + 1))) {
            (Some(l), Some(r)) => Some((l, r)),
            _ => None,
        },
        None => None,
    }
}

/// Parses `s` as two values of `T` around the first `separator`, as in `"400x600"`.
pub fn parse_pair<T: DecimalInt>(s: &str, separator: char) -> (r: Option<(T, T)>)
    ensures
        r == pair_of::<T>(s@, separator),
{
    match find_separator(s, separator) {
        None => None,
        Some(index) => {
            proof {
                s@.index_of_first_ensures(separator);
            }
            let n = s.unicode_len();
            let left = T::parse_decimal(s.substring_char(0, index));
            let right = T::parse_decimal(s.substring_char(index + 1, n));
            proof {
                assert(s@.subrange(0, index as int) =~= s@.take(index as int));
                assert(s@.subrange(index + 1, n as int) =~= s@.skip(index + 1));
            }
            match (left, right) {
                (Some(l), Some(r)) => Some((l, r)),
                _ => None,
            }
        },
    }
}

/// Char index of the first occurrence of `separator` in `s`, if any.
pub fn find_separator(s: &str, separator: char) -> (r: Option<usize>)
    ensures
        r matches Some(k) ==> s@.index_of_first(separator) == Some(k as int),
        r is None ==> s@.index_of_first(separator) is None,
{
    proof {
        s@.index_of_first_ensures(separator);
    }
    let n = s.unicode_len();
    let mut i: usize = 0;
    while i < n
        invariant
            n == s@.len(),
            i <= n,
            forall|j: int| 0 <= j < i ==> s@[j] != separator,
        decreases n - i,
    {
        if s.get_char(i) == separator {
            proof {
                s@.index_of_first_ensures(separator);
            }
            return Some(i);
        }
        i = i + 1;
    }
    None
}

/// The ASCII digit for `d`, which is below ten.
pub open spec fn digit_char(d: nat) -> char {
    seq!['0', '1', '2', '3', '4', '5', '6', '7', '8', '9'][d as int]
}

/// The decimal text of `n`: its digits, most significant first, with no sign
/// and no leading zero.
pub open spec fn decimal_text(n: nat) -> Seq<char>
    decreases n,
{
    if n < 10 {
        seq![digit_char(n)]
    } else {
        decimal_text(n / 10).push(digit_char(n % 10))
    }
}

proof fn lemma_digit_char(d: nat)
    requires
        d < 10,
    ensures
        is_digit(digit_char(d)),
        digit_value(digit_char(d)) == d,
{
}

proof fn lemma_decimal_text(n: nat)
    ensures
        all_digits(decimal_text(n)),
        digits_value(decimal_text(n)) == n,
    decreases n,
{
    if n < 10 {
        lemma_digit_char(n);
        assert(decimal_text(n).drop_last() =~= Seq::<char>::empty());
        assert(digits_value(Seq::<char>::empty()) == 0);
    } else {
        lemma_decimal_text(n / 10);
        lemma_digit_char(n % 10);
        let t = decimal_text(n);
        assert(t.drop_last() =~= decimal_text(n / 10));
        assert(t.last() == digit_char(n % 10));
        assert(digits_value(t) == (n / 10) * 10 + n % 10);
        assert forall|i: int| 0 <= i < t.len() implies is_digit(#[trigger] t[i]) by {
            if i < t.len() - 1 {
                assert(t[i] == decimal_text(n / 10)[i]);
            }
        }
    }
}

/// The text `"{a}{separator}{b}"` splits back into the decimal texts of `a` and `b`
/// when the separator is not a digit.
proof fn lemma_split_texts(a: nat, b: nat, separator: char)
    requires
        !is_digit(separator),
    ensures
        ({
            let ta = decimal_text(a);
            let s = ta + seq![separator] + decimal_text(b);
            &&& s.index_of_first(separator) == Some(ta.len() as int)
            &&& s.take(ta.len() as int) == ta
            &&& s.skip(ta.len() as int + 1) == decimal_text(b)
        }),
{
    let ta = decimal_text(a);
    let tb = decimal_text(b);
    let s = ta + seq![separator] + tb;
    lemma_decimal_text(a);
    lemma_decimal_text(b);
    s.index_of_first_ensures(separator);
    assert(s[ta.len() as int] == separator);
    assert forall|j: int| 0 <= j < ta.len() implies s[j] != separator by {
        assert(s[j] == ta[j]);
    }
    assert(s.take(ta.len() as int) =~= ta);
    assert(s.skip(ta.len() as int + 1) =~= tb);
}

/// Writing two positive `i32` values around a separator that is not a digit,
/// as `"{a}{separator}{b}"`, and reading the text back as a pair gives `(a, b)`.
pub proof fn i32_pair_round_trip(a: i32, b: i32, separator: char)
    requires
        a > 0,
        b > 0,
        !is_digit(separator),
    ensures
        pair_of::<i32>(
            decimal_text(a as nat) + seq![separator] + decimal_text(b as nat),
            separator,
        ) == Some((a, b)),
{
    lemma_split_texts(a as nat, b as nat, separator);
    lemma_decimal_text(a as nat);
    lemma_decimal_text(b as nat);
}

/// Writing two positive `usize` values around a separator that is not a digit,
/// as `"{a}{separator}{b}"`, and reading the text back as a pair gives `(a, b)`.
pub proof fn usize_pair_round_trip(a: usize, b: usize, separator: char)
    requires
        a > 0,
        b > 0,
        !is_digit(separator),
    ensures
        pair_of::<usize>(
            decimal_text(a as nat) + seq![separator] + decimal_text(b as nat),
            separator,
        ) == Some((a, b)),
{
    lemma_split_texts(a as nat, b as nat, separator);
    lemma_decimal_text(a as nat);
    lemma_decimal_text(b as nat);
}

} // verus!
