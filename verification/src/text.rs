//! Small operations on text that the parsers share.

use vstd::prelude::*;
use vstd::string::*;

verus! {

/// The characters of `s`, one by one.
pub fn chars_of(s: &str) -> (res: Vec<char>)
    ensures
        res@ == s@,
{
    let mut out: Vec<char> = Vec::new();
    for c in it: s.chars()
        invariant
            it.seq() == s@,
            out@ == s@.take(it.index() as int),
    {
        out.push(c);
        assert(s@.take(it.index() + 1) =~= s@.take(it.index() as int).push(c));
    }
    assert(s@.take(s@.len() as int) =~= s@);
    out
}

/// Whether `s` reads exactly as `literal`.
pub fn text_is(s: &String, literal: &str) -> (res: bool)
    ensures
        res == (s@ == literal@),
{
    let owned = String::from_str(literal);
    *s == owned
}

/// Position of the first `c` in `s`, or the length of `s` if it has none.
pub open spec fn first_index(s: Seq<char>, c: char) -> int
    decreases s.len(),
{
    if s.len() == 0 {
        0
    } else if s[0] == c {
        0
    } else {
        1 + first_index(s.drop_first(), c)
    }
}

/// The first `c` lies within the text, and no `c` lies before it.
pub proof fn lemma_first_index_bounds(s: Seq<char>, c: char)
    ensures
        0 <= first_index(s, c) <= s.len(),
        first_index(s, c) < s.len() ==> s[first_index(s, c)] == c,
        forall|j: int| 0 <= j < first_index(s, c) ==> #[trigger] s[j] != c,
    decreases s.len(),
{
    if s.len() > 0 && s[0] != c {
        let rest = s.drop_first();
        lemma_first_index_bounds(rest, c);
        assert forall|j: int| 0 <= j < first_index(s, c) implies #[trigger] s[j] != c by {
            if j > 0 {
                assert(s[j] == rest[j - 1]);
            }
        }
    }
}

/// The first `c` is found where a scan from the left meets it.
pub proof fn lemma_first_index_is(s: Seq<char>, c: char, k: int)
    requires
        0 <= k <= s.len(),
        forall|j: int| 0 <= j < k ==> #[trigger] s[j] != c,
        k < s.len() ==> s[k] == c,
    ensures
        first_index(s, c) == k,
{
    lemma_first_index_bounds(s, c);
    let p = first_index(s, c);
    if p < k {
        assert(s[p] == c);
    } else if p > k {
        assert(s[k] != c);
    }
}

/// The two sides of a text that holds exactly one `-`.
pub open spec fn pair_of(s: Seq<char>) -> Option<(Seq<char>, Seq<char>)> {
    let dash = first_index(s, '-');
    if dash < s.len() && first_index(s.skip(dash + 1), '-') == s.len() - dash - 1 {
        Some((s.take(dash), s.skip(dash + 1)))
    } else {
        None
    }
}

/// Index of the first `c` at or after `from`, or the length if there is
/// none.
fn find_from(chars: &Vec<char>, from: usize, c: char) -> (res: usize)
    requires
        from <= chars@.len(),
    ensures
        res == from + first_index(chars@.skip(from as int), c),
        from <= res <= chars@.len(),
{
    let mut i: usize = from;
    while i < chars.len() && chars[i] != c
        invariant
            from <= i <= chars@.len(),
            forall|j: int| 0 <= j < i - from ==> #[trigger] chars@.skip(from as int)[j] != c,
        decreases chars@.len() - i,
    {
        i = i + 1;
    }
    proof {
        lemma_first_index_is(chars@.skip(from as int), c, i - from);
    }
    i
}

/// Splits a market name such as `BTC-ETH` at its dash.
pub fn split_pair(s: &str) -> (res: Option<(String, String)>)
    ensures
        match pair_of(s@) {
            Some((left, right)) => res matches Some(sides) && sides.0@ == left && sides.1@
                == right,
            None => res is None,
        },
{
    let chars = chars_of(s);
    let n = chars.len();
    assert(chars@.skip(0) =~= chars@);
    let dash = find_from(&chars, 0, '-');
    if dash >= n {
        return None;
    }
    let next = find_from(&chars, dash + 1, '-');
    if next < n {
        return None;
    }
    let left = s.substring_char(0, dash);
    let right = s.substring_char(dash + 1, n);
    assert(s@.subrange(0, dash as int) =~= s@.take(dash as int));
    assert(s@.subrange(dash + 1, n as int) =~= s@.skip(dash + 1));
    Some((String::from_str(left), String::from_str(right)))
}

} // verus!
