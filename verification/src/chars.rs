//! Counting and finding characters.

use vstd::prelude::*;

verus! {

/// How often `c` stands in `s`.
pub open spec fn count(s: Seq<char>, c: char) -> nat
    decreases s.len(),
{
    if s.len() == 0 {
        0
    } else {
        count(s.drop_last(), c) + if s.last() == c {
            1nat
        } else {
            0nat
        }
    }
}

/// The index of the first `c` in `s`, or the length of `s` where it has none.
pub open spec fn first_index(s: Seq<char>, c: char) -> nat
    decreases s.len(),
{
    if s.len() == 0 || s[0] == c {
        0
    } else {
        1 + first_index(s.drop_first(), c)
    }
}

/// `c` stands nowhere in `s`.
pub open spec fn no_char(s: Seq<char>, c: char) -> bool {
    forall|i: int| 0 <= i < s.len() ==> s[i] != c
}

/// `first_index` is the one index before which `c` does not stand and at
/// which it does, or the length.
pub proof fn lemma_first_index(s: Seq<char>, c: char, i: int)
    requires
        0 <= i <= s.len(),
        forall|j: int| 0 <= j < i ==> s[j] != c,
        i < s.len() ==> s[i] == c,
    ensures
        first_index(s, c) == i,
    decreases s.len(),
{
    if i > 0 {
        let rest = s.drop_first();
        assert forall|j: int| 0 <= j < i - 1 implies rest[j] != c by {
            assert(rest[j] == s[j + 1]);
        }
        lemma_first_index(rest, c, i - 1);
    }
}

/// `first_index` lies within the sequence or at its end, `c` stands there
/// and nowhere before.
pub proof fn lemma_first_index_is_first(s: Seq<char>, c: char)
    ensures
        first_index(s, c) <= s.len(),
        first_index(s, c) < s.len() ==> s[first_index(s, c) as int] == c,
        forall|j: int| 0 <= j < first_index(s, c) ==> s[j] != c,
    decreases s.len(),
{
    if !(s.len() == 0 || s[0] == c) {
        let rest = s.drop_first();
        lemma_first_index_is_first(rest, c);
        assert forall|j: int| 0 <= j < first_index(s, c) implies s[j] != c by {
            if j > 0 {
                assert(rest[j - 1] == s[j]);
            }
        }
    }
}

/// Occurrences add up over concatenation.
pub proof fn lemma_count_concat(a: Seq<char>, b: Seq<char>, c: char)
    ensures
        count(a + b, c) == count(a, c) + count(b, c),
    decreases b.len(),
{
    if b.len() == 0 {
        assert(a + b == a);
    } else {
        assert((a + b).drop_last() == a + b.drop_last());
        lemma_count_concat(a, b.drop_last(), c);
    }
}

/// A character is counted zero times exactly where it does not stand.
pub proof fn lemma_count_zero(s: Seq<char>, c: char)
    ensures
        count(s, c) == 0 <==> no_char(s, c),
    decreases s.len(),
{
    if s.len() > 0 {
        let front = s.drop_last();
        lemma_count_zero(front, c);
        if no_char(s, c) {
            assert forall|i: int| 0 <= i < front.len() implies front[i] != c by {
                assert(front[i] == s[i]);
            }
        }
        if count(s, c) == 0 {
            assert forall|i: int| 0 <= i < s.len() implies s[i] != c by {
                if i < front.len() {
                    assert(front[i] == s[i]);
                }
            }
        }
    }
}

/// A sequence of one character holds that character once and no other.
pub proof fn lemma_count_single(d: char, c: char)
    ensures
        count(seq![d], c) == if d == c {
            1nat
        } else {
            0nat
        },
{
    assert(seq![d].drop_last() =~= Seq::<char>::empty());
    assert(count(Seq::<char>::empty(), c) == 0);
    assert(seq![d].last() == d);
}

/// A character that is counted once stands at one index only.
pub proof fn lemma_counted_once(s: Seq<char>, c: char, i: int, j: int)
    requires
        count(s, c) == 1,
        0 <= i < j < s.len(),
        s[i] == c,
    ensures
        s[j] != c,
    decreases s.len(),
{
    let front = s.drop_last();
    if j == s.len() - 1 {
        if s[j] == c {
            lemma_count_zero(front, c);
            assert(front[i] == s[i]);
        }
    } else {
        assert(front[i] == s[i]);
        assert(front[j] == s[j]);
        if s.last() == c {
            lemma_count_zero(front, c);
        } else {
            lemma_counted_once(front, c, i, j);
        }
    }
}

/// Where `c` stands in `s`, its first index is within `s`.
pub proof fn lemma_counted_is_found(s: Seq<char>, c: char)
    requires
        count(s, c) > 0,
    ensures
        first_index(s, c) < s.len(),
{
    lemma_first_index_is_first(s, c);
    lemma_count_zero(s, c);
}

/// The index of the first `c` at or after `from`, or the length.
pub(crate) fn find_char(cs: &Vec<char>, from: usize, c: char) -> (at: usize)
    requires
        from <= cs.len(),
    ensures
        from <= at <= cs.len(),
        at - from == first_index(cs@.skip(from as int), c),
{
    let mut at: usize = from;
    while at < cs.len() && cs[at] != c
        invariant
            from <= at <= cs.len(),
            forall|j: int| from <= j < at ==> cs@[j] != c,
        decreases cs.len() - at,
    {
        at += 1;
    }
    proof {
        lemma_first_index(cs@.skip(from as int), c, at - from);
    }
    at
}

/// How often `c` stands in `cs`.
pub fn count_char(cs: &Vec<char>, c: char) -> (n: usize)
    ensures
        n == count(cs@, c),
{
    let mut n: usize = 0;
    let mut i: usize = 0;
    while i < cs.len()
        invariant
            i <= cs.len(),
            n == count(cs@.take(i as int), c),
            n <= i,
        decreases cs.len() - i,
    {
        proof {
            assert(cs@.take(i + 1).drop_last() == cs@.take(i as int));
        }
        if cs[i] == c {
            n += 1;
        }
        i += 1;
    }
    proof {
        assert(cs@.take(cs.len() as int) == cs@);
    }
    n
}

} // verus!
