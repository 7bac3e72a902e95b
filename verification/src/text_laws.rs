//! Where texts are split.
use vstd::prelude::*;

use crate::text::{split_pieces, split_seq, strip_leading};

verus! {

/// Whether `c` occurs in `s`.
pub open spec fn occurs(s: Seq<char>, c: char) -> bool {
    exists|i: int| 0 <= i < s.len() && #[trigger] s[i] == c
}

/// Whether the first `c` in `s` is the one at `p`.
pub open spec fn first_at(s: Seq<char>, c: char, p: int) -> bool {
    &&& 0 <= p < s.len()
    &&& s[p] == c
    &&& forall|i: int| 0 <= i < p ==> #[trigger] s[i] != c
}

/// Whether the only `c` in `s` is the one at `p`.
pub open spec fn only_at(s: Seq<char>, c: char, p: int) -> bool {
    &&& 0 <= p < s.len()
    &&& s[p] == c
    &&& forall|i: int| 0 <= i < s.len() && i != p ==> #[trigger] s[i] != c
}

/// Whether `c` occurs twice in `s`, or more often.
pub open spec fn occurs_twice(s: Seq<char>, c: char) -> bool {
    exists|i: int, j: int| 0 <= i < j < s.len() && #[trigger] s[i] == c && #[trigger] s[j] == c
}

/// A text without the separator is its only piece.
pub proof fn split_of_one(s: Seq<char>, sep: char)
    requires
        !occurs(s, sep),
    ensures
        split_seq(s, sep) == seq![s],
    decreases s.len(),
{
    if s.len() > 0 {
        let rest = s.drop_last();
        assert(s[s.len() - 1] != sep);
        assert forall|i: int| 0 <= i < rest.len() implies #[trigger] rest[i] != sep by {
            assert(s[i] != sep);
        }
        split_of_one(rest, sep);
        assert(rest.push(s.last()) =~= s);
        assert(split_seq(s, sep) =~= seq![s]);
    } else {
        assert(s =~= Seq::empty());
    }
}

/// The first piece of a text ends where the first separator stands, and is not the only one.
pub proof fn split_starts(s: Seq<char>, sep: char, p: int)
    requires
        first_at(s, sep, p),
    ensures
        split_seq(s, sep).len() > 1,
        split_seq(s, sep)[0] == s.take(p),
    decreases s.len(),
{
    let rest = s.drop_last();
    if p == s.len() - 1 {
        assert forall|i: int| 0 <= i < rest.len() implies #[trigger] rest[i] != sep by {
            assert(s[i] != sep);
        }
        split_of_one(rest, sep);
        assert(s.take(p) =~= rest);
    } else {
        assert(rest[p] == sep);
        assert forall|i: int| 0 <= i < p implies #[trigger] rest[i] != sep by {
            assert(s[i] != sep);
        }
        split_starts(rest, sep, p);
        assert(rest.take(p) =~= s.take(p));
    }
}

/// A text with one separator has two pieces: what stands before it and what stands behind.
pub proof fn split_in_two(s: Seq<char>, sep: char, p: int)
    requires
        only_at(s, sep, p),
    ensures
        split_seq(s, sep) == seq![s.take(p), s.skip(p + 1)],
    decreases s.len(),
{
    let rest = s.drop_last();
    if p == s.len() - 1 {
        assert forall|i: int| 0 <= i < rest.len() implies #[trigger] rest[i] != sep by {
            assert(s[i] != sep);
        }
        split_of_one(rest, sep);
        assert(s.take(p) =~= rest);
        assert(s.skip(p + 1) =~= Seq::empty());
        assert(split_seq(s, sep) =~= seq![s.take(p), s.skip(p + 1)]);
    } else {
        assert(rest[p] == sep);
        assert forall|i: int| 0 <= i < rest.len() && i != p implies #[trigger] rest[i] != sep by {
            assert(s[i] != sep);
        }
        split_in_two(rest, sep, p);
        assert(s[s.len() - 1] != sep);
        assert(rest.take(p) =~= s.take(p));
        assert(rest.skip(p + 1).push(s.last()) =~= s.skip(p + 1));
        assert(split_seq(s, sep) =~= seq![s.take(p), s.skip(p + 1)]);
    }
}

/// A text has more than two pieces if the separator occurs more than once.
pub proof fn split_in_more(s: Seq<char>, sep: char)
    requires
        occurs_twice(s, sep),
    ensures
        split_seq(s, sep).len() > 2,
    decreases s.len(),
{
    let (i, j) = choose|i: int, j: int|
        0 <= i < j < s.len() && #[trigger] s[i] == sep && #[trigger] s[j] == sep;
    let rest = s.drop_last();
    split_pieces(rest, sep);
    split_pieces(s, sep);
    if j < rest.len() {
        assert(rest[i] == sep && rest[j] == sep);
        split_in_more(rest, sep);
    } else {
        assert(rest[i] == sep);
        let p = first_from(rest, sep, i);
        split_starts(rest, sep, p);
    }
}

proof fn first_from(s: Seq<char>, c: char, i: int) -> (p: int)
    requires
        0 <= i < s.len(),
        s[i] == c,
    ensures
        first_at(s, c, p),
    decreases i,
{
    if exists|j: int| 0 <= j < i && #[trigger] s[j] == c {
        let j = choose|j: int| 0 <= j < i && #[trigger] s[j] == c;
        first_from(s, c, j)
    } else {
        i
    }
}

/// A text that holds a character has a first place of it.
pub proof fn occurring_comes_first(s: Seq<char>, c: char)
    ensures
        occurs(s, c) <==> exists|p: int| first_at(s, c, p),
{
    if occurs(s, c) {
        let i = choose|i: int| 0 <= i < s.len() && #[trigger] s[i] == c;
        let p = first_from(s, c, i);
        assert(first_at(s, c, p));
    }
    if exists|p: int| first_at(s, c, p) {
        let p = choose|p: int| first_at(s, c, p);
        assert(s[p] == c);
    }
}

/// A text that holds a character holds it once or more often.
pub proof fn occurs_once_or_more(s: Seq<char>, c: char)
    ensures
        occurs(s, c) <==> occurs_twice(s, c) || exists|p: int| only_at(s, c, p),
        !(occurs_twice(s, c) && exists|p: int| only_at(s, c, p)),
{
    if occurs(s, c) && !occurs_twice(s, c) {
        let p = choose|p: int| 0 <= p < s.len() && #[trigger] s[p] == c;
        assert forall|i: int| 0 <= i < s.len() && i != p implies #[trigger] s[i] != c by {
            if s[i] == c {
                assert(i < p || p < i);
                assert(s[p] == c && s[i] == c);
            }
        }
        assert(only_at(s, c, p));
    }
    if exists|p: int| only_at(s, c, p) {
        let p = choose|p: int| only_at(s, c, p);
        assert(s[p] == c);
    }
    if occurs_twice(s, c) {
        let (i, j) = choose|i: int, j: int|
            0 <= i < j < s.len() && #[trigger] s[i] == c && #[trigger] s[j] == c;
        assert(s[i] == c);
    }
}

/// What is left of a text without its leading `c` is an end of it that does not start with `c`,
/// and before it stands nothing but `c`.
pub proof fn stripped_is_rest(s: Seq<char>, c: char)
    ensures
        strip_leading(s, c).len() <= s.len(),
        strip_leading(s, c) == s.skip(s.len() - strip_leading(s, c).len()),
        strip_leading(s, c).len() > 0 ==> strip_leading(s, c)[0] != c,
        forall|i: int| 0 <= i < s.len() - strip_leading(s, c).len() ==> #[trigger] s[i] == c,
    decreases s.len(),
{
    if s.len() > 0 && s[0] == c {
        let rest = s.skip(1);
        stripped_is_rest(rest, c);
        let n = rest.len() - strip_leading(rest, c).len();
        assert(rest.skip(n as int) =~= s.skip(n + 1));
        assert forall|i: int| 0 <= i < s.len() - strip_leading(s, c).len() implies #[trigger] s[i]
            == c by {
            if i > 0 {
                assert(rest[i - 1] == s[i]);
            }
        }
    } else {
        assert(s.skip(0) =~= s);
    }
}

} // verus!
