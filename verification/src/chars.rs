//! Character-level helpers shared by the scanner, the parsers and the
//! annotator: the whitespace class, first/last-occurrence searches with their
//! characterizing lemmas, string equality and whitespace trimming.
//!
//! Whitespace throughout this crate is the ASCII whitespace class.
use vstd::prelude::*;

verus! {

/// The whitespace characters that separate tokens and surround markers.
pub open spec fn is_space(c: char) -> bool {
    c == ' ' || c == '\t' || c == '\n' || c == '\r' || c == '\u{000B}' || c == '\u{000C}'
}

/// Runtime test for [`is_space`].
pub fn is_space_char(c: char) -> (res: bool)
    ensures
        res == is_space(c),
{
    c == ' ' || c == '\t' || c == '\n' || c == '\r' || c == '\u{000B}' || c == '\u{000C}'
}

/// The predicate "is exactly the character `ch`", as a value, so that spec
/// functions and lemmas can share one search definition.
pub open spec fn eq_pred(ch: char) -> spec_fn(char) -> bool {
    |c: char| c == ch
}

/// The predicate "is a whitespace character", as a value.
pub open spec fn space_pred() -> spec_fn(char) -> bool {
    |c: char| is_space(c)
}

/// The predicate "is not a whitespace character", as a value.
pub open spec fn non_space_pred() -> spec_fn(char) -> bool {
    |c: char| !is_space(c)
}

/// Index of the first character of `s` satisfying `p`; `s.len()` if none does.
pub open spec fn first_where<A>(s: Seq<A>, p: spec_fn(A) -> bool) -> int
    decreases s.len(),
{
    if s.len() == 0 {
        0
    } else if p(s[0]) {
        0
    } else {
        1 + first_where(s.drop_first(), p)
    }
}

/// Index of the last character of `s` satisfying `p`; `-1` if none does.
pub open spec fn last_where<A>(s: Seq<A>, p: spec_fn(A) -> bool) -> int
    decreases s.len(),
{
    if s.len() == 0 {
        -1
    } else if p(s.last()) {
        s.len() - 1
    } else {
        last_where(s.drop_last(), p)
    }
}

/// `first_where` returns the least index satisfying `p`.
pub proof fn lemma_first_where<A>(s: Seq<A>, p: spec_fn(A) -> bool)
    ensures
        0 <= first_where(s, p) <= s.len(),
        forall|k: int| 0 <= k < first_where(s, p) ==> !p(s[k]),
        first_where(s, p) < s.len() ==> p(s[first_where(s, p)]),
    decreases s.len(),
{
    if s.len() == 0 {
    } else if p(s[0]) {
    } else {
        lemma_first_where(s.drop_first(), p);
        assert forall|k: int| 0 <= k < first_where(s, p) implies !p(s[k]) by {
            if k > 0 {
                assert(s[k] == s.drop_first()[k - 1]);
            }
        }
    }
}

/// Any index below which `p` never holds and at which `p` holds (or which is
/// the length) is the `first_where` index.
pub proof fn lemma_first_where_is<A>(s: Seq<A>, p: spec_fn(A) -> bool, j: int)
    requires
        0 <= j <= s.len(),
        forall|k: int| 0 <= k < j ==> !p(s[k]),
        j < s.len() ==> p(s[j]),
    ensures
        first_where(s, p) == j,
    decreases s.len(),
{
    if s.len() == 0 {
    } else if p(s[0]) {
        assert(j == 0);
    } else {
        assert(j >= 1) by {
            assert(j < s.len() ==> p(s[j]));
        }
        assert forall|k: int| 0 <= k < j - 1 implies !p(s.drop_first()[k]) by {
            assert(s.drop_first()[k] == s[k + 1]);
        }
        assert(j - 1 < s.drop_first().len() ==> p(s.drop_first()[j - 1]));
        lemma_first_where_is(s.drop_first(), p, j - 1);
    }
}

/// First index at or after `from` whose character is `ch`; `s`'s length if
/// there is none.
pub fn find_char(s: &str, from: usize, ch: char) -> (res: usize)
    requires
        from <= s@.len(),
    ensures
        from <= res <= s@.len(),
        forall|k: int| from <= k < res ==> s@[k] != ch,
        res < s@.len() ==> s@[res as int] == ch,
        res - from == first_where(s@.skip(from as int), eq_pred(ch)),
{
    let len: usize = s.unicode_len();
    let mut j: usize = from;
    while j < len
        invariant
            from <= j <= len,
            len == s@.len(),
            forall|k: int| from <= k < j ==> s@[k] != ch,
        decreases len - j,
    {
        if s.get_char(j) == ch {
            proof {
                lemma_skip_index_agrees(s@, from as int);
                lemma_first_where_is(s@.skip(from as int), eq_pred(ch), j - from);
            }
            return j;
        }
        j = j + 1;
    }
    proof {
        lemma_skip_index_agrees(s@, from as int);
        lemma_first_where_is(s@.skip(from as int), eq_pred(ch), len - from);
    }
    len
}

/// Indexing into a suffix reads the original sequence at an offset.
proof fn lemma_skip_index_agrees(s: Seq<char>, from: int)
    requires
        0 <= from <= s.len(),
    ensures
        s.skip(from).len() == s.len() - from,
        forall|k: int| 0 <= k < s.len() - from ==> s.skip(from)[k] == s[k + from],
{
}

/// First index at or after `from` holding a non-whitespace character;
/// `s`'s length if there is none.
pub fn find_non_space(s: &str, from: usize) -> (res: usize)
    requires
        from <= s@.len(),
    ensures
        from <= res <= s@.len(),
        forall|k: int| from <= k < res ==> is_space(s@[k]),
        res < s@.len() ==> !is_space(s@[res as int]),
        res - from == first_where(s@.skip(from as int), non_space_pred()),
{
    let len: usize = s.unicode_len();
    let mut j: usize = from;
    while j < len
        invariant
            from <= j <= len,
            len == s@.len(),
            forall|k: int| from <= k < j ==> is_space(s@[k]),
        decreases len - j,
    {
        if !is_space_char(s.get_char(j)) {
            proof {
                lemma_skip_index_agrees(s@, from as int);
                lemma_first_where_is(s@.skip(from as int), non_space_pred(), j - from);
            }
            return j;
        }
        j = j + 1;
    }
    proof {
        lemma_skip_index_agrees(s@, from as int);
        lemma_first_where_is(s@.skip(from as int), non_space_pred(), len - from);
    }
    len
}

/// First index at or after `from` holding a whitespace character;
/// `s`'s length if there is none.
pub fn find_space(s: &str, from: usize) -> (res: usize)
    requires
        from <= s@.len(),
    ensures
        from <= res <= s@.len(),
        forall|k: int| from <= k < res ==> !is_space(s@[k]),
        res < s@.len() ==> is_space(s@[res as int]),
        res - from == first_where(s@.skip(from as int), space_pred()),
{
    let len: usize = s.unicode_len();
    let mut j: usize = from;
    while j < len
        invariant
            from <= j <= len,
            len == s@.len(),
            forall|k: int| from <= k < j ==> !is_space(s@[k]),
        decreases len - j,
    {
        if is_space_char(s.get_char(j)) {
            proof {
                lemma_skip_index_agrees(s@, from as int);
                lemma_first_where_is(s@.skip(from as int), space_pred(), j - from);
            }
            return j;
        }
        j = j + 1;
    }
    proof {
        lemma_skip_index_agrees(s@, from as int);
        lemma_first_where_is(s@.skip(from as int), space_pred(), len - from);
    }
    len
}

/// Character-for-character string equality, decided at runtime.
pub fn str_eq(a: &str, b: &str) -> (res: bool)
    ensures
        res == (a@ == b@),
{
    let alen: usize = a.unicode_len();
    let blen: usize = b.unicode_len();
    if alen != blen {
        return false;
    }
    let mut j: usize = 0;
    while j < alen
        invariant
            0 <= j <= alen,
            alen == a@.len(),
            alen == b@.len(),
            forall|k: int| 0 <= k < j ==> a@[k] == b@[k],
        decreases alen - j,
    {
        if a.get_char(j) != b.get_char(j) {
            return false;
        }
        j = j + 1;
    }
    proof {
        assert(a@ =~= b@);
    }
    true
}

/// `s` with leading and trailing whitespace removed: the segment from the
/// first non-whitespace character to the last, or empty if there is none.
pub open spec fn trim_spec(s: Seq<char>) -> Seq<char> {
    let a = first_where(s, non_space_pred());
    let b = last_where(s, non_space_pred());
    if a == s.len() {
        Seq::empty()
    } else {
        s.subrange(a, b + 1)
    }
}

/// Runtime whitespace trimming, returning a slice of the input.
pub fn trim(s: &str) -> (res: &str)
    ensures
        res@ == trim_spec(s@),
{
    let len: usize = s.unicode_len();
    let a: usize = find_non_space(s, 0);
    proof {
        assert(s@.skip(0) =~= s@);
    }
    if a == len {
        proof {
            assert(s@.subrange(0, 0) =~= Seq::<char>::empty());
        }
        return s.substring_char(0, 0);
    }
    // Scan backward for the last non-whitespace character.
    let mut b: usize = len - 1;
    while b > a && is_space_char(s.get_char(b))
        invariant
            a <= b < len,
            len == s@.len(),
            a == first_where(s@, non_space_pred()),
            a < len,
            !is_space(s@[a as int]),
            forall|k: int| b < k < len ==> is_space(s@[k]),
        decreases b,
    {
        b = b - 1;
    }
    proof {
        lemma_last_where_from_scan(s@, b as int);
    }
    s.substring_char(a, b + 1)
}

/// A backward scan that stopped at a non-whitespace character found the
/// `last_where` index.
proof fn lemma_last_where_from_scan(s: Seq<char>, b: int)
    requires
        0 <= b < s.len(),
        !is_space(s[b]),
        forall|k: int| b < k < s.len() ==> is_space(s[k]),
    ensures
        last_where(s, non_space_pred()) == b,
    decreases s.len(),
{
    if b == s.len() - 1 {
    } else {
        assert(is_space(s.last()));
        assert(s.drop_last()[b] == s[b]);
        assert forall|k: int| b < k < s.drop_last().len() implies is_space(s.drop_last()[k]) by {
            assert(s.drop_last()[k] == s[k]);
        }
        lemma_last_where_from_scan(s.drop_last(), b);
    }
}

} // verus!
