//! Which texts are numbers.
use vstd::prelude::*;

use crate::text::{all_digits, ascii_lower, decimal, digits_end, is_digit_char, is_exponent_at, is_float_seq, is_i32_seq, is_number_seq, same_ignoring_case, unsigned_part};

verus! {

/// Whether a character is one of the ten decimal digits.
pub open spec fn is_decimal_digit(c: char) -> bool {
    c == '0' || c == '1' || c == '2' || c == '3' || c == '4' || c == '5' || c == '6' || c == '7'
        || c == '8' || c == '9'
}

/// The decimal digit of a number below ten.
pub open spec fn digit_of(n: nat) -> char {
    if n == 0 {
        '0'
    } else if n == 1 {
        '1'
    } else if n == 2 {
        '2'
    } else if n == 3 {
        '3'
    } else if n == 4 {
        '4'
    } else if n == 5 {
        '5'
    } else if n == 6 {
        '6'
    } else if n == 7 {
        '7'
    } else if n == 8 {
        '8'
    } else {
        '9'
    }
}

/// The decimal digits of a number, without leading zeros.
pub open spec fn written(n: nat) -> Seq<char>
    decreases n,
{
    if n < 10 {
        seq![digit_of(n)]
    } else {
        written(n / 10).push(digit_of(n % 10))
    }
}

proof fn digits_are_ten(c: char)
    ensures
        is_digit_char(c) == is_decimal_digit(c),
{
}

proof fn written_is_read(n: nat)
    ensures
        written(n).len() > 0,
        all_digits(written(n)),
        decimal(written(n)) == n,
        written(n)[0] != '-' && written(n)[0] != '+',
    decreases n,
{
    if n < 10 {
        let s = seq![digit_of(n)];
        assert(s.last() == digit_of(n));
        assert(s.drop_last() =~= Seq::empty());
        assert(decimal(s.drop_last()) == 0);
        assert(is_digit_char(digit_of(n)));
    } else {
        let front = written(n / 10);
        let s = front.push(digit_of(n % 10));
        written_is_read(n / 10);
        assert(s.drop_last() =~= front);
        assert(s.last() == digit_of(n % 10));
        assert(decimal(s) == decimal(front) * 10 + n % 10);
        assert(is_digit_char(digit_of(n % 10)));
        assert(s[0] == front[0]);
    }
}

/// A whole number, written in decimal with or without a sign, is accepted if and only if it fits
/// into 32 bits with a sign.
pub proof fn written_number_fits(n: nat)
    ensures
        is_i32_seq(written(n)) <==> n <= 2147483647,
        is_i32_seq(seq!['+'] + written(n)) <==> n <= 2147483647,
        is_i32_seq(seq!['-'] + written(n)) <==> n <= 2147483648,
{
    written_is_read(n);
    let s = written(n);
    let plus = seq!['+'] + s;
    let minus = seq!['-'] + s;
    assert(unsigned_part(s) == s);
    assert(plus[0] == '+' && minus[0] == '-');
    assert(plus.skip(1) =~= s);
    assert(minus.skip(1) =~= s);
}

/// A leading zero changes nothing of what is accepted.
pub proof fn leading_zero_is_ignored(s: Seq<char>)
    requires
        s.len() > 0,
        all_digits(s),
    ensures
        is_i32_seq(seq!['0'] + s) == is_i32_seq(s),
{
    let t = seq!['0'] + s;
    zero_adds_nothing(s);
    assert(t[0] == '0');
    assert(is_digit_char(s[0]));
    assert(unsigned_part(s) == s && unsigned_part(t) == t);
    assert(all_digits(t)) by {
        assert forall|i: int| 0 <= i < t.len() implies is_digit_char(#[trigger] t[i]) by {
            if i > 0 {
                assert(t[i] == s[i - 1]);
            }
        }
    }
}

proof fn zero_adds_nothing(s: Seq<char>)
    ensures
        decimal(seq!['0'] + s) == decimal(s),
    decreases s.len(),
{
    let t = seq!['0'] + s;
    if s.len() == 0 {
        assert(t =~= seq!['0']);
        assert(t.drop_last() =~= Seq::empty());
        assert(t.last() == '0');
        assert(decimal(t.drop_last()) == 0);
    } else {
        zero_adds_nothing(s.drop_last());
        assert(t.drop_last() =~= seq!['0'] + s.drop_last());
        assert(t.last() == s.last());
    }
}

/// What is accepted as a whole number holds a digit, and nothing but digits behind an optional
/// sign.
pub proof fn whole_number_is_digits(s: Seq<char>)
    requires
        is_i32_seq(s),
    ensures
        ({
            let start: int = if s[0] == '-' || s[0] == '+' {
                1
            } else {
                0
            };
            &&& start < s.len()
            &&& forall|i: int| start <= i < s.len() ==> is_decimal_digit(#[trigger] s[i])
        }),
{
    let start: int = if s[0] == '-' || s[0] == '+' {
        1
    } else {
        0
    };
    let digits = unsigned_part(s);
    if s.len() == 0 {
        assert(digits.len() == 0);
    }
    assert forall|i: int| start <= i < s.len() implies is_decimal_digit(#[trigger] s[i]) by {
        assert(is_digit_char(digits[i - start]));
        assert(digits[i - start] == s[i]);
    }
}

/// Whether the characters from `i` up to `j` are digits.
pub open spec fn digits_between(s: Seq<char>, i: int, j: int) -> bool {
    0 <= i <= j <= s.len() && forall|k: int| i <= k < j ==> is_decimal_digit(#[trigger] s[k])
}

/// Whether the text ends at `j`, or with an exponent that starts there: `e` or `E`, an optional
/// sign, and at least one digit.
pub open spec fn ends_from(s: Seq<char>, j: int) -> bool {
    ||| j == s.len()
    ||| {
        &&& 0 <= j < s.len()
        &&& s[j] == 'e' || s[j] == 'E'
        &&& {
            ||| j + 1 < s.len() && digits_between(s, j + 1, s.len() as int)
            ||| j + 2 < s.len() && (s[j + 1] == '+' || s[j + 1] == '-') && digits_between(
                s,
                j + 2,
                s.len() as int,
            )
        }
    }
}

/// Whether the text is digits up to `i` and then ends, or digits with a point at `i`, digits from
/// there up to `j`, at least one in all, and then ends.
pub open spec fn is_number_by(s: Seq<char>, i: int, j: int) -> bool {
    ||| i == j && 0 < i && digits_between(s, 0, i) && ends_from(s, i)
    ||| i < j && j > 1 && digits_between(s, 0, i) && i < s.len() && s[i] == '.' && digits_between(
        s,
        i + 1,
        j,
    ) && ends_from(s, j)
}

/// Whether a text is the lower-case word, in whatever case its letters are written.
pub open spec fn is_word(s: Seq<char>, word: Seq<char>) -> bool {
    &&& s.len() == word.len()
    &&& forall|i: int|
        0 <= i < s.len() ==> (#[trigger] s[i] == word[i] || ('A' <= s[i] && s[i] <= 'Z' && s[i]
            as u32 + 32 == word[i] as u32))
}

/// The text without its sign, if it starts with one.
pub open spec fn without_sign(s: Seq<char>) -> Seq<char> {
    if s.len() > 0 && (s[0] == '+' || s[0] == '-') {
        s.skip(1)
    } else {
        s
    }
}

proof fn run_of_digits(s: Seq<char>, i: int)
    requires
        0 <= i <= s.len(),
    ensures
        i <= digits_end(s, i) <= s.len(),
        digits_between(s, i, digits_end(s, i)),
        digits_end(s, i) < s.len() ==> !is_decimal_digit(s[digits_end(s, i)]),
    decreases s.len() - i,
{
    if i < s.len() {
        digits_are_ten(s[i]);
        if is_digit_char(s[i]) {
            run_of_digits(s, i + 1);
        }
    }
}

proof fn run_is_unique(s: Seq<char>, i: int, j: int)
    requires
        digits_between(s, i, j),
        j < s.len() ==> !is_decimal_digit(s[j]),
    ensures
        digits_end(s, i) == j,
{
    run_of_digits(s, i);
    let e = digits_end(s, i);
    if e < j {
        assert(is_decimal_digit(s[e]));
    }
    if j < e {
        assert(is_decimal_digit(s[j]));
    }
}

proof fn exponent_is_end(s: Seq<char>, j: int)
    requires
        0 <= j <= s.len(),
    ensures
        (j == s.len() || is_exponent_at(s, j)) == ends_from(s, j),
{
    let n = s.len() as int;
    if j < n && (s[j] == 'e' || s[j] == 'E') {
        let signed = j + 1 < n && (s[j + 1] == '-' || s[j + 1] == '+');
        let start = if signed {
            j + 2
        } else {
            j + 1
        };
        if start < n {
            run_of_digits(s, start);
            if digits_between(s, start, n) {
                run_is_unique(s, start, n);
            }
        }
        if signed {
            assert(!is_decimal_digit(s[j + 1]));
            assert(!digits_between(s, j + 1, n));
        }
    }
}

proof fn number_is_by(s: Seq<char>)
    ensures
        is_number_seq(s) <==> exists|i: int, j: int| #[trigger] is_number_by(s, i, j),
{
    let whole = digits_end(s, 0);
    run_of_digits(s, 0);
    let pointed = whole < s.len() && s[whole] == '.';
    let end = if pointed {
        digits_end(s, whole + 1)
    } else {
        whole
    };
    if pointed {
        run_of_digits(s, whole + 1);
    }
    exponent_is_end(s, end);
    if is_number_seq(s) {
        assert(is_number_by(s, whole, end));
    }
    if exists|i: int, j: int| #[trigger] is_number_by(s, i, j) {
        let (i, j) = choose|i: int, j: int| #[trigger] is_number_by(s, i, j);
        assert(i < s.len() ==> !is_decimal_digit(s[i]));
        run_is_unique(s, 0, i);
        if i < j {
            assert(j < s.len() ==> !is_decimal_digit(s[j]));
            run_is_unique(s, i + 1, j);
        }
    }
}

proof fn word_is_lowered(s: Seq<char>, word: Seq<char>)
    requires
        forall|i: int| 0 <= i < word.len() ==> 'a' <= #[trigger] word[i] && word[i] <= 'z',
    ensures
        same_ignoring_case(s, word) == is_word(s, word),
{
    if same_ignoring_case(s, word) {
        assert forall|i: int| 0 <= i < s.len() implies (#[trigger] s[i] == word[i] || ('A' <= s[i]
            && s[i] <= 'Z' && s[i] as u32 + 32 == word[i] as u32)) by {
            assert(ascii_lower(s[i]) == word[i]);
        }
    }
    if is_word(s, word) {
        assert forall|i: int| 0 <= i < s.len() implies ascii_lower(#[trigger] s[i]) == word[i] by {
            assert('a' <= word[i]);
        }
    }
}

/// A text is a floating-point number if and only if, behind an optional sign, it is `inf`,
/// `infinity` or `nan` in any case, or digits with at most one point before, among or behind
/// them, and then at most an exponent.
pub proof fn decimal_number_is_accepted(s: Seq<char>)
    ensures
        is_float_seq(s) <==> {
            let t = without_sign(s);
            ||| exists|i: int, j: int| #[trigger] is_number_by(t, i, j)
            ||| is_word(t, seq!['i', 'n', 'f'])
            ||| is_word(t, seq!['i', 'n', 'f', 'i', 'n', 'i', 't', 'y'])
            ||| is_word(t, seq!['n', 'a', 'n'])
        },
{
    let t = without_sign(s);
    assert(unsigned_part(s) == t);
    number_is_by(t);
    reveal_strlit("inf");
    reveal_strlit("infinity");
    reveal_strlit("nan");
    assert("inf"@ =~= seq!['i', 'n', 'f']);
    assert("infinity"@ =~= seq!['i', 'n', 'f', 'i', 'n', 'i', 't', 'y']);
    assert("nan"@ =~= seq!['n', 'a', 'n']);
    word_is_lowered(t, "inf"@);
    word_is_lowered(t, "infinity"@);
    word_is_lowered(t, "nan"@);
}

} // verus!
