//! String operations whose results are stated over sequences of characters.
use vstd::prelude::*;
use vstd::string::{StrSliceExecFns, StringExecFns};

verus! {

/// The pieces of `s` between occurrences of `sep`; never empty.
pub open spec fn split_seq(s: Seq<char>, sep: char) -> Seq<Seq<char>>
    decreases s.len(),
{
    if s.len() == 0 {
        seq![Seq::empty()]
    } else {
        let front = split_seq(s.drop_last(), sep);
        if s.last() == sep {
            front.push(Seq::empty())
        } else {
            front.update(front.len() - 1, front.last().push(s.last()))
        }
    }
}

/// The pieces of `parts` with `sep` between neighbours.
pub open spec fn join_seq(parts: Seq<Seq<char>>, sep: char) -> Seq<char>
    decreases parts.len(),
{
    if parts.len() == 0 {
        Seq::empty()
    } else if parts.len() == 1 {
        parts[0]
    } else {
        join_seq(parts.drop_last(), sep).push(sep) + parts.last()
    }
}

/// The number of times `c` occurs in `s`.
pub open spec fn occurrences(s: Seq<char>, c: char) -> nat
    decreases s.len(),
{
    if s.len() == 0 {
        0
    } else {
        occurrences(s.drop_last(), c) + if s.last() == c {
            1nat
        } else {
            0nat
        }
    }
}

/// `s` without its leading occurrences of `c`.
pub open spec fn strip_leading(s: Seq<char>, c: char) -> Seq<char>
    decreases s.len(),
{
    if s.len() > 0 && s[0] == c {
        strip_leading(s.skip(1), c)
    } else {
        s
    }
}

/// Whether `c` is an ASCII decimal digit.
pub open spec fn is_digit_char(c: char) -> bool {
    '0' <= c && c <= '9'
}

/// Whether `s` holds decimal digits only.
pub open spec fn all_digits(s: Seq<char>) -> bool {
    forall|i: int| 0 <= i < s.len() ==> is_digit_char(#[trigger] s[i])
}

/// The number that the decimal digits `s` stand for.
pub open spec fn decimal(s: Seq<char>) -> nat
    decreases s.len(),
{
    if s.len() == 0 {
        0
    } else {
        decimal(s.drop_last()) * 10 + (s.last() as u32 - '0' as u32) as nat
    }
}

/// `s` without its sign, if it starts with one.
pub open spec fn unsigned_part(s: Seq<char>) -> Seq<char> {
    if s.len() > 0 && (s[0] == '-' || s[0] == '+') {
        s.skip(1)
    } else {
        s
    }
}

/// Whether `s` is a 32-bit signed decimal number: an optional sign, then digits,
/// in range.
pub open spec fn is_i32_seq(s: Seq<char>) -> bool {
    let digits = unsigned_part(s);
    &&& digits.len() > 0
    &&& all_digits(digits)
    &&& decimal(digits) <= if s[0] == '-' {
        0x8000_0000nat
    } else {
        0x7fff_ffffnat
    }
}

/// The end of the run of digits of `s` that starts at `i`.
pub open spec fn digits_end(s: Seq<char>, i: int) -> int
    decreases s.len() - i,
{
    if 0 <= i < s.len() && is_digit_char(s[i]) {
        digits_end(s, i + 1)
    } else {
        i
    }
}

/// Whether `s`, from `i` on, is an exponent: `e`, an optional sign, digits.
pub open spec fn is_exponent_at(s: Seq<char>, i: int) -> bool {
    &&& 0 <= i < s.len()
    &&& s[i] == 'e' || s[i] == 'E'
    &&& {
        let start = if i + 1 < s.len() && (s[i + 1] == '-' || s[i + 1] == '+') {
            i + 2
        } else {
            i + 1
        };
        &&& start < s.len()
        &&& digits_end(s, start) == s.len()
    }
}

/// Whether `s` is an unsigned decimal number: digits with an optional point among,
/// before or after them, then an optional exponent.
pub open spec fn is_number_seq(s: Seq<char>) -> bool {
    let whole = digits_end(s, 0);
    let pointed = whole < s.len() && s[whole] == '.';
    let end = if pointed {
        digits_end(s, whole + 1)
    } else {
        whole
    };
    let digits = if pointed {
        end - 1
    } else {
        end
    };
    &&& digits > 0
    &&& end == s.len() || is_exponent_at(s, end)
}

/// The lower-case form of an ASCII letter; other characters are kept.
pub open spec fn ascii_lower(c: char) -> char {
    if 'A' <= c && c <= 'Z' {
        ((c as u32 + 32) as u32) as char
    } else {
        c
    }
}

/// Whether `s` and `t` differ at most in the case of ASCII letters.
pub open spec fn same_ignoring_case(s: Seq<char>, t: Seq<char>) -> bool {
    &&& s.len() == t.len()
    &&& forall|i: int| 0 <= i < s.len() ==> ascii_lower(#[trigger] s[i]) == t[i]
}

/// Whether `s` is the text of a floating-point number: an optional sign, then a
/// number, `inf`, `infinity` or `nan` in any case.
pub open spec fn is_float_seq(s: Seq<char>) -> bool {
    let t = unsigned_part(s);
    ||| is_number_seq(t)
    ||| same_ignoring_case(t, "inf"@)
    ||| same_ignoring_case(t, "infinity"@)
    ||| same_ignoring_case(t, "nan"@)
}

/// The views of a list of strings.
pub open spec fn texts(v: Seq<String>) -> Seq<Seq<char>> {
    v.map_values(|s: String| s@)
}

/// Joining the pieces of a split gives the text back.
pub proof fn split_then_join(s: Seq<char>, sep: char)
    ensures
        join_seq(split_seq(s, sep), sep) == s,
    decreases s.len(),
{
    if s.len() > 0 {
        let front = split_seq(s.drop_last(), sep);
        split_then_join(s.drop_last(), sep);
        split_pieces(s.drop_last(), sep);
        let all = split_seq(s, sep);
        if s.last() == sep {
            assert(all.drop_last() =~= front);
            assert(join_seq(all, sep) =~= s);
        } else {
            if front.len() == 1 {
                assert(all.len() == 1);
                assert(all[0] == front.last().push(s.last()));
                assert(join_seq(all, sep) =~= s);
            } else {
                assert(all.drop_last() =~= front.drop_last());
                assert(all.last() == front.last().push(s.last()));
                let head = join_seq(front.drop_last(), sep).push(sep);
                assert(join_seq(front, sep) == head + front.last());
                assert(join_seq(all, sep) == head + all.last());
                assert(head + all.last() =~= (head + front.last()).push(s.last()));
                assert(s =~= s.drop_last().push(s.last()));
            }
        }
    }
}

/// A split has one piece more than the text has separators, and no piece holds one.
pub proof fn split_pieces(s: Seq<char>, sep: char)
    ensures
        split_seq(s, sep).len() == occurrences(s, sep) + 1,
        forall|i: int, j: int|
            0 <= i < split_seq(s, sep).len() && 0 <= j < split_seq(s, sep)[i].len()
                ==> #[trigger] split_seq(s, sep)[i][j] != sep,
    decreases s.len(),
{
    if s.len() > 0 {
        split_pieces(s.drop_last(), sep);
    }
}

/// Whether two strings hold the same characters.
pub fn same_text(a: &str, b: &str) -> (r: bool)
    ensures
        r == (a@ == b@),
{
    let x = chars_of(a);
    let y = chars_of(b);
    if x.len() != y.len() {
        return false;
    }
    let mut i: usize = 0;
    while i < x.len()
        invariant
            x@ == a@,
            y@ == b@,
            i <= x.len(),
            x.len() == y.len(),
            forall|j: int| 0 <= j < i ==> x@[j] == y@[j],
        decreases x.len() - i,
    {
        if x[i] != y[i] {
            return false;
        }
        i = i + 1;
    }
    assert(a@ =~= b@);
    true
}

/// The characters of `s`.
pub fn chars_of(s: &str) -> (r: Vec<char>)
    ensures
        r@ == s@,
{
    let mut out: Vec<char> = Vec::new();
    for c in it: s.chars()
        invariant
            out@ == it.seq().take(it.index() as int),
            it.seq() == s@,
    {
        out.push(c);
        assert(out@ =~= it.seq().take(it.index() + 1));
    }
    assert(out@ =~= s@);
    out
}

proof fn split_take_step(s: Seq<char>, i: int, sep: char)
    requires
        0 <= i < s.len(),
    ensures
        split_seq(s.take(i + 1), sep) == if s[i] == sep {
            split_seq(s.take(i), sep).push(Seq::empty())
        } else {
            split_seq(s.take(i), sep).update(
                split_seq(s.take(i), sep).len() - 1,
                split_seq(s.take(i), sep).last().push(s[i]),
            )
        },
{
    assert(s.take(i + 1).drop_last() =~= s.take(i));
}

/// The pieces of `s` between occurrences of `sep`.
pub fn split_on(s: &str, sep: char) -> (r: Vec<String>)
    ensures
        texts(r@) == split_seq(s@, sep),
        r.len() >= 1,
{
    let chars = chars_of(s);
    let mut out: Vec<String> = Vec::new();
    let mut start: usize = 0;
    let mut i: usize = 0;
    proof {
        assert(s@.take(0) =~= Seq::empty());
        assert(s@.subrange(0, 0) =~= Seq::empty());
        assert(texts(out@).push(Seq::<char>::empty()) =~= seq![Seq::<char>::empty()]);
    }
    while i < chars.len()
        invariant
            chars@ == s@,
            start <= i <= chars.len(),
            split_seq(s@.take(i as int), sep) == texts(out@).push(
                s@.subrange(start as int, i as int),
            ),
        decreases chars.len() - i,
    {
        proof {
            split_take_step(s@, i as int, sep);
        }
        if chars[i] == sep {
            let ghost before = texts(out@);
            let piece = s.substring_char(start, i).to_owned();
            out.push(piece);
            assert(texts(out@) =~= before.push(s@.subrange(start as int, i as int)));
            start = i + 1;
            assert(s@.subrange(i + 1, i + 1) =~= Seq::empty());
        } else {
            let ghost parts = texts(out@).push(s@.subrange(start as int, i as int));
            assert(s@.subrange(start as int, i as int).push(s@[i as int]) =~= s@.subrange(
                start as int,
                i + 1,
            ));
            assert(parts.update(parts.len() - 1, s@.subrange(start as int, i + 1)) =~= texts(
                out@,
            ).push(s@.subrange(start as int, i + 1)));
        }
        i = i + 1;
    }
    assert(s@.take(i as int) =~= s@);
    let ghost before = texts(out@);
    out.push(s.substring_char(start, i).to_owned());
    assert(texts(out@) =~= before.push(s@.subrange(start as int, i as int)));
    out
}

/// The pieces with `sep` between neighbours.
pub fn join_with(parts: &Vec<String>, sep: char, sep_text: &str) -> (r: String)
    requires
        sep_text@ == seq![sep],
    ensures
        r@ == join_seq(texts(parts@), sep),
{
    let mut out = String::new();
    let mut i: usize = 0;
    let ghost all = texts(parts@);
    assert(all.take(0) =~= Seq::empty());
    while i < parts.len()
        invariant
            i <= parts.len(),
            all == texts(parts@),
            sep_text@ == seq![sep],
            out@ == join_seq(all.take(i as int), sep),
        decreases parts.len() - i,
    {
        proof {
            assert(all.take(i + 1).drop_last() =~= all.take(i as int));
            assert(all.take(i + 1).last() == parts@[i as int]@);
        }
        if i > 0 {
            out.append(sep_text);
            out.append(parts[i].as_str());
            assert(out@ =~= join_seq(all.take(i as int), sep).push(sep) + parts@[i as int]@);
        } else {
            out.append(parts[i].as_str());
            assert(out@ =~= parts@[0]@);
            assert(all.take(1)[0] == parts@[0]@);
        }
        i = i + 1;
    }
    assert(all.take(i as int) =~= all);
    out
}

/// `s` without its leading occurrences of `c`.
pub fn without_leading(s: &str, c: char) -> (r: String)
    ensures
        r@ == strip_leading(s@, c),
{
    let chars = chars_of(s);
    let mut i: usize = 0;
    assert(s@.skip(0) =~= s@);
    while i < chars.len() && chars[i] == c
        invariant
            chars@ == s@,
            i <= chars.len(),
            strip_leading(s@, c) == strip_leading(s@.skip(i as int), c),
        decreases chars.len() - i,
    {
        assert(s@.skip(i as int).skip(1) =~= s@.skip(i + 1));
        assert(s@.skip(i as int)[0] == chars@[i as int]);
        i = i + 1;
    }
    assert(i < chars.len() ==> s@.skip(i as int)[0] == chars@[i as int]);
    assert(s@.subrange(i as int, s@.len() as int) =~= s@.skip(i as int));
    s.substring_char(i, chars.len()).to_owned()
}

/// Whether `c` is an ASCII decimal digit.
pub fn is_digit(c: char) -> (r: bool)
    ensures
        r == is_digit_char(c),
{
    '0' <= c && c <= '9'
}

proof fn decimal_grows(s: Seq<char>, i: int)
    requires
        0 <= i <= s.len(),
    ensures
        decimal(s.take(i)) <= decimal(s),
    decreases s.len() - i,
{
    if i < s.len() {
        decimal_grows(s, i + 1);
        assert(s.take(i + 1).drop_last() =~= s.take(i));
    } else {
        assert(s.take(i) =~= s);
    }
}

/// Whether `s` is a 32-bit signed decimal number.
pub fn is_i32(s: &str) -> (r: bool)
    ensures
        r == is_i32_seq(s@),
{
    let chars = chars_of(s);
    let mut limit: u64 = 0x7fff_ffff;
    let mut start: usize = 0;
    if chars.len() > 0 && (chars[0] == '-' || chars[0] == '+') {
        start = 1;
        if chars[0] == '-' {
            limit = 0x8000_0000;
        }
    }
    let ghost digits = unsigned_part(s@);
    if start == chars.len() {
        return false;
    }
    let mut value: u64 = 0;
    let mut i: usize = start;
    assert(digits.take(0) =~= Seq::empty());
    while i < chars.len()
        invariant
            chars@ == s@,
            start <= i <= chars.len(),
            start <= 1,
            digits == unsigned_part(s@),
            digits == s@.skip(start as int),
            limit == if s@[0] == '-' { 0x8000_0000u64 } else { 0x7fff_ffffu64 },
            digits.len() > 0,
            all_digits(digits.take(i - start)),
            value == decimal(digits.take(i - start)),
            value <= limit,
        decreases chars.len() - i,
    {
        assert(digits[i - start] == chars@[i as int]);
        if !is_digit(chars[i]) {
            return false;
        }
        let digit: u64 = (chars[i] as u32 - '0' as u32) as u64;
        proof {
            assert(digits.take(i - start + 1).drop_last() =~= digits.take(i - start));
            decimal_grows(digits, i - start + 1);
        }
        value = value * 10 + digit;
        if value > limit {
            return false;
        }
        i = i + 1;
    }
    assert(digits.take(i - start) =~= digits);
    true
}

/// The end of the run of digits that starts at `i`.
fn end_of_digits(chars: &Vec<char>, i: usize) -> (r: usize)
    requires
        i <= chars.len(),
    ensures
        r == digits_end(chars@, i as int),
        i <= r <= chars.len(),
{
    let mut j: usize = i;
    while j < chars.len() && is_digit(chars[j])
        invariant
            i <= j <= chars.len(),
            digits_end(chars@, i as int) == digits_end(chars@, j as int),
        decreases chars.len() - j,
    {
        j = j + 1;
    }
    j
}

/// Whether `chars`, from `i` on, is an exponent.
fn exponent_at(chars: &Vec<char>, i: usize) -> (r: bool)
    requires
        i <= chars.len(),
    ensures
        r == is_exponent_at(chars@, i as int),
{
    if i == chars.len() || !(chars[i] == 'e' || chars[i] == 'E') {
        return false;
    }
    let mut start: usize = i + 1;
    if start < chars.len() && (chars[start] == '-' || chars[start] == '+') {
        start = start + 1;
    }
    start < chars.len() && end_of_digits(chars, start) == chars.len()
}

/// Whether `chars` is an unsigned decimal number.
fn number(chars: &Vec<char>) -> (r: bool)
    ensures
        r == is_number_seq(chars@),
{
    let whole: usize = end_of_digits(chars, 0);
    let mut end: usize = whole;
    let mut digits: usize = whole;
    if whole < chars.len() && chars[whole] == '.' {
        end = end_of_digits(chars, whole + 1);
        digits = end - 1;
    }
    digits > 0 && (end == chars.len() || exponent_at(chars, end))
}

/// The lower-case form of an ASCII letter; other characters are kept.
fn to_ascii_lower(c: char) -> (r: char)
    ensures
        r == ascii_lower(c),
{
    match c {
        'A' => 'a',
        'B' => 'b',
        'C' => 'c',
        'D' => 'd',
        'E' => 'e',
        'F' => 'f',
        'G' => 'g',
        'H' => 'h',
        'I' => 'i',
        'J' => 'j',
        'K' => 'k',
        'L' => 'l',
        'M' => 'm',
        'N' => 'n',
        'O' => 'o',
        'P' => 'p',
        'Q' => 'q',
        'R' => 'r',
        'S' => 's',
        'T' => 't',
        'U' => 'u',
        'V' => 'v',
        'W' => 'w',
        'X' => 'x',
        'Y' => 'y',
        'Z' => 'z',
        other => other,
    }
}

/// Whether `chars` is `word` up to the case of ASCII letters.
fn is_word(chars: &Vec<char>, word: &str) -> (r: bool)
    ensures
        r == same_ignoring_case(chars@, word@),
{
    let letters = chars_of(word);
    if letters.len() != chars.len() {
        return false;
    }
    let mut i: usize = 0;
    while i < chars.len()
        invariant
            letters@ == word@,
            letters.len() == chars.len(),
            i <= chars.len(),
            forall|j: int| 0 <= j < i ==> ascii_lower(#[trigger] chars@[j]) == word@[j],
        decreases chars.len() - i,
    {
        if to_ascii_lower(chars[i]) != letters[i] {
            return false;
        }
        i = i + 1;
    }
    true
}

/// Whether `s` is the text of a floating-point number.
pub fn is_float(s: &str) -> (r: bool)
    ensures
        r == is_float_seq(s@),
{
    let mut chars = chars_of(s);
    if chars.len() > 0 && (chars[0] == '-' || chars[0] == '+') {
        chars.remove(0);
        assert(chars@ =~= s@.skip(1));
    }
    number(&chars) || is_word(&chars, "inf") || is_word(&chars, "infinity") || is_word(
        &chars,
        "nan",
    )
}

} // verus!
