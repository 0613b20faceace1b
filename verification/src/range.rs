//! The range-selection model: line intervals with four boundary shapes, the
//! membership test a line index is checked against, and the parsers for the
//! single-range and multi-range selector syntax.
//!
//! Grammar of a single range expression:
//! - `"N"` selects exactly line `N`;
//! - `":"` selects every line;
//! - `"N:"` selects lines from `N` on;
//! - `":M"` selects lines strictly before `M`;
//! - `"N:M"` selects lines `N` up to but excluding `M`;
//! - anything else (empty, extra colons, non-numeric bounds) is invalid.
//!
//! A multi-range expression `[e1, e2, ...]` parses each comma-separated
//! entry independently; entries that fail to parse are dropped silently.
use vstd::prelude::*;

use crate::chars::eq_pred;
use crate::chars::find_char;
use crate::chars::first_where;
use crate::chars::lemma_first_where;
use crate::chars::trim;
use crate::chars::trim_spec;

verus! {

/// One end of a line interval: no limit, a limit that itself belongs to the
/// interval, or a limit that is just outside it.
#[derive(PartialEq, Eq, Structural, Clone, Copy, Debug)]
pub enum LineBound {
    Unbounded,
    Included(usize),
    Excluded(usize),
}

/// Whether line index `i` lies at or above the lower bound `b`.
pub open spec fn lower_ok(b: LineBound, i: nat) -> bool {
    match b {
        LineBound::Unbounded => true,
        LineBound::Included(n) => i >= n,
        LineBound::Excluded(n) => i > n,
    }
}

/// Whether line index `i` lies at or below the upper bound `b`.
pub open spec fn upper_ok(b: LineBound, i: nat) -> bool {
    match b {
        LineBound::Unbounded => true,
        LineBound::Included(n) => i <= n,
        LineBound::Excluded(n) => i < n,
    }
}

/// Whether line index `i` is selected by the interval `r`, under standard
/// interval semantics.
pub open spec fn range_contains(r: (LineBound, LineBound), i: nat) -> bool {
    lower_ok(r.0, i) && upper_ok(r.1, i)
}

/// Whether line index `i` is selected by any interval of the set.
pub open spec fn selected(rs: Seq<(LineBound, LineBound)>, i: nat) -> bool {
    exists|k: int| 0 <= k < rs.len() && range_contains(rs[k], i)
}

/// Runtime membership test for one interval.
pub fn line_in_range(r: &(LineBound, LineBound), i: usize) -> (res: bool)
    ensures
        res == range_contains(*r, i as nat),
{
    let low_ok = match r.0 {
        LineBound::Unbounded => true,
        LineBound::Included(n) => i >= n,
        LineBound::Excluded(n) => i > n,
    };
    let high_ok = match r.1 {
        LineBound::Unbounded => true,
        LineBound::Included(n) => i <= n,
        LineBound::Excluded(n) => i < n,
    };
    low_ok && high_ok
}

/// Runtime membership test against a whole range set.
pub fn line_selected(rs: &Vec<(LineBound, LineBound)>, i: usize) -> (res: bool)
    ensures
        res == selected(rs@, i as nat),
{
    let mut k: usize = 0;
    while k < rs.len()
        invariant
            0 <= k <= rs@.len(),
            forall|j: int| 0 <= j < k ==> !range_contains(rs@[j], i as nat),
        decreases rs@.len() - k,
    {
        if line_in_range(&rs[k], i) {
            return true;
        }
        k = k + 1;
    }
    false
}

/// A decimal digit.
pub open spec fn is_digit(c: char) -> bool {
    '0' <= c && c <= '9'
}

/// The numeric value of one decimal digit.
pub open spec fn digit_val(c: char) -> nat {
    (c as int - '0' as int) as nat
}

/// A non-empty sequence of decimal digits.
pub open spec fn dig_seq(s: Seq<char>) -> bool {
    s.len() > 0 && forall|k: int| 0 <= k < s.len() ==> is_digit(#[trigger] s[k])
}

/// The value of a digit sequence read in base ten.
pub open spec fn dig_val(s: Seq<char>) -> nat
    decreases s.len(),
{
    if s.len() == 0 {
        0
    } else {
        dig_val(s.drop_last()) * 10 + digit_val(s.last())
    }
}

/// `s` with one leading `'+'` sign removed, as the standard numeric parser
/// accepts for unsigned values.
pub open spec fn strip_plus(s: Seq<char>) -> Seq<char> {
    if s.len() > 0 && s[0] == '+' {
        s.drop_first()
    } else {
        s
    }
}

/// What parsing `s` as a line index returns: its numeric value when `s` is
/// an optional `'+'` sign followed by one or more decimal digits whose value
/// fits the index type, and nothing otherwise.
pub open spec fn parse_usize_spec(s: Seq<char>) -> Option<usize> {
    let d = strip_plus(s);
    if dig_seq(d) && dig_val(d) <= usize::MAX {
        Some(dig_val(d) as usize)
    } else {
        None
    }
}

/// The value of a digit sequence never shrinks as digits are appended.
proof fn lemma_dig_val_prefix_le(s: Seq<char>, m: int)
    requires
        0 <= m <= s.len(),
    ensures
        dig_val(s.take(m)) <= dig_val(s),
    decreases s.len() - m,
{
    if m == s.len() {
        assert(s.take(m) =~= s);
    } else {
        assert(s.take(m + 1).drop_last() =~= s.take(m));
        assert(dig_val(s.take(m + 1)) == dig_val(s.take(m)) * 10 + digit_val(s.take(m + 1).last()));
        lemma_dig_val_prefix_le(s, m + 1);
    }
}

/// Parse a decimal line index, as [`parse_usize_spec`] describes.
pub fn parse_usize(s: &str) -> (res: Option<usize>)
    ensures
        res == parse_usize_spec(s@),
{
    let len: usize = s.unicode_len();
    let start: usize = if len > 0 && s.get_char(0) == '+' {
        1
    } else {
        0
    };
    let ghost d_all = s@.subrange(start as int, len as int);
    proof {
        assert(d_all =~= strip_plus(s@));
    }
    if start == len {
        return None;
    }
    let mut val: usize = 0;
    let mut j: usize = start;
    while j < len
        invariant
            start <= j <= len,
            len == s@.len(),
            start <= 1,
            d_all == s@.subrange(start as int, len as int),
            d_all == strip_plus(s@),
            forall|k: int| start <= k < j ==> is_digit(#[trigger] s@[k]),
            val as nat == dig_val(s@.subrange(start as int, j as int)),
        decreases len - j,
    {
        let c = s.get_char(j);
        if !('0' <= c && c <= '9') {
            proof {
                assert(d_all[j - start] == s@[j as int]);
                assert(!dig_seq(d_all));
            }
            return None;
        }
        let d: usize = ((c as u32) - ('0' as u32)) as usize;
        let ghost pre = s@.subrange(start as int, j as int);
        let ghost ext = s@.subrange(start as int, j + 1);
        proof {
            assert(ext.drop_last() =~= pre);
            assert(ext.last() == s@[j as int]);
            assert(dig_val(ext) == dig_val(pre) * 10 + digit_val(s@[j as int]));
            assert(ext =~= d_all.take(j + 1 - start));
        }
        let stepped = match val.checked_mul(10) {
            Some(v10) => v10.checked_add(d),
            None => None,
        };
        match stepped {
            Some(v) => {
                val = v;
            },
            None => {
                proof {
                    assert(dig_val(ext) > usize::MAX);
                    lemma_dig_val_prefix_le(d_all, j + 1 - start);
                    assert(dig_val(d_all) > usize::MAX);
                }
                return None;
            },
        }
        j = j + 1;
    }
    proof {
        assert(s@.subrange(start as int, len as int) == d_all);
        assert(dig_seq(d_all));
    }
    Some(val)
}

/// What parsing `s` as a context-line count returns; the same grammar as
/// [`parse_usize_spec`] with the 32-bit bound.
pub open spec fn parse_u32_spec(s: Seq<char>) -> Option<u32> {
    let d = strip_plus(s);
    if dig_seq(d) && dig_val(d) <= u32::MAX {
        Some(dig_val(d) as u32)
    } else {
        None
    }
}

/// Parse a decimal context-line count, as [`parse_u32_spec`] describes.
pub fn parse_u32(s: &str) -> (res: Option<u32>)
    ensures
        res == parse_u32_spec(s@),
{
    match parse_usize(s) {
        None => None,
        Some(v) => {
            if v <= u32::MAX as usize {
                Some(v as u32)
            } else {
                None
            }
        },
    }
}

/// What parsing one single-range expression returns, following the grammar
/// in the module documentation.
pub open spec fn parse_range_spec(s: Seq<char>) -> Option<(LineBound, LineBound)> {
    let c = first_where(s, eq_pred(':'));
    if c == s.len() {
        match parse_usize_spec(s) {
            Some(n) => Some((LineBound::Included(n), LineBound::Included(n))),
            None => None,
        }
    } else {
        let a = s.take(c);
        let b = s.skip(c + 1);
        if first_where(b, eq_pred(':')) != b.len() {
            None
        } else if a.len() == 0 && b.len() == 0 {
            Some((LineBound::Unbounded, LineBound::Unbounded))
        } else if b.len() == 0 {
            match parse_usize_spec(a) {
                Some(n) => Some((LineBound::Included(n), LineBound::Unbounded)),
                None => None,
            }
        } else if a.len() == 0 {
            match parse_usize_spec(b) {
                Some(m) => Some((LineBound::Unbounded, LineBound::Excluded(m))),
                None => None,
            }
        } else {
            match (parse_usize_spec(a), parse_usize_spec(b)) {
                (Some(n), Some(m)) => Some((LineBound::Included(n), LineBound::Excluded(m))),
                _ => None,
            }
        }
    }
}

/// Parse one single-range expression, as [`parse_range_spec`] describes.
pub fn parse_range(range: &str) -> (res: Option<(LineBound, LineBound)>)
    ensures
        res == parse_range_spec(range@),
{
    let len: usize = range.unicode_len();
    let c: usize = find_char(range, 0, ':');
    proof {
        assert(range@.skip(0) =~= range@);
    }
    if c == len {
        return match parse_usize(range) {
            Some(n) => Some((LineBound::Included(n), LineBound::Included(n))),
            None => None,
        };
    }
    let a: &str = range.substring_char(0, c);
    let b: &str = range.substring_char(c + 1, len);
    proof {
        assert(a@ =~= range@.take(c as int));
        assert(b@ =~= range@.skip(c + 1));
        assert(b@.skip(0) =~= b@);
    }
    let blen: usize = b.unicode_len();
    if find_char(b, 0, ':') != blen {
        return None;
    }
    let alen: usize = a.unicode_len();
    if alen == 0 && blen == 0 {
        Some((LineBound::Unbounded, LineBound::Unbounded))
    } else if blen == 0 {
        match parse_usize(a) {
            Some(n) => Some((LineBound::Included(n), LineBound::Unbounded)),
            None => None,
        }
    } else if alen == 0 {
        match parse_usize(b) {
            Some(m) => Some((LineBound::Unbounded, LineBound::Excluded(m))),
            None => None,
        }
    } else {
        match (parse_usize(a), parse_usize(b)) {
            (Some(n), Some(m)) => Some((LineBound::Included(n), LineBound::Excluded(m))),
            _ => None,
        }
    }
}

/// The comma-separated pieces of `s`, empty pieces preserved; a text without
/// a comma is one piece.
pub open spec fn split_commas(s: Seq<char>) -> Seq<Seq<char>>
    decreases s.len(),
    via split_commas_dec
{
    let c = first_where(s, eq_pred(','));
    if c == s.len() {
        seq![s]
    } else {
        seq![s.take(c)] + split_commas(s.skip(c + 1))
    }
}

#[via_fn]
proof fn split_commas_dec(s: Seq<char>) {
    lemma_first_where(s, eq_pred(','));
}

/// The ranges parsed from a list of array entries: each entry is trimmed of
/// whitespace and parsed as a single-range expression; entries that fail to
/// parse are dropped.
pub open spec fn parse_entries(es: Seq<Seq<char>>) -> Seq<(LineBound, LineBound)>
    decreases es.len(),
{
    if es.len() == 0 {
        Seq::empty()
    } else {
        match parse_range_spec(trim_spec(es[0])) {
            Some(r) => seq![r] + parse_entries(es.drop_first()),
            None => parse_entries(es.drop_first()),
        }
    }
}

/// Unfolding step of [`parse_entries`] over an explicit first entry.
proof fn lemma_parse_entries_cons(e: Seq<char>, rest: Seq<Seq<char>>)
    ensures
        parse_entries(seq![e] + rest) == match parse_range_spec(trim_spec(e)) {
            Some(r) => seq![r] + parse_entries(rest),
            None => parse_entries(rest),
        },
{
    assert((seq![e] + rest)[0] == e);
    assert((seq![e] + rest).drop_first() =~= rest);
}

/// What parsing a `path` or `path:<range-expr>` string returns: the bare
/// path, and the range set the expression denotes. Without a colon the whole
/// string is the path and every line is selected; a bracketed expression is
/// a multi-range array; anything else is a single-range expression, whose
/// failure leaves the range set empty.
pub open spec fn parse_path_ranges_spec(t: Seq<char>) -> (Seq<char>, Seq<(LineBound, LineBound)>) {
    let c = first_where(t, eq_pred(':'));
    if c == t.len() {
        (t, seq![(LineBound::Unbounded, LineBound::Unbounded)])
    } else {
        let path = t.take(c);
        let r = t.skip(c + 1);
        if r.len() >= 2 && r[0] == '[' && r[r.len() - 1] == ']' {
            (path, parse_entries(split_commas(r.subrange(1, r.len() - 1))))
        } else {
            match parse_range_spec(r) {
                Some(rg) => (path, seq![rg]),
                None => (path, Seq::empty()),
            }
        }
    }
}

/// Parse a path with an optional range expression, splitting at the first
/// colon, as [`parse_path_ranges_spec`] describes. An empty range set means
/// the range expression was present but invalid.
pub fn parse_path_and_ranges<'a>(path_and_range: &'a str) -> (res: (
    &'a str,
    Vec<(LineBound, LineBound)>,
))
    ensures
        res.0@ == parse_path_ranges_spec(path_and_range@).0,
        res.1@ == parse_path_ranges_spec(path_and_range@).1,
{
    let len: usize = path_and_range.unicode_len();
    let c: usize = find_char(path_and_range, 0, ':');
    proof {
        assert(path_and_range@.skip(0) =~= path_and_range@);
    }
    if c == len {
        let mut one: Vec<(LineBound, LineBound)> = Vec::new();
        one.push((LineBound::Unbounded, LineBound::Unbounded));
        proof {
            assert(one@ =~= seq![(LineBound::Unbounded, LineBound::Unbounded)]);
            assert(path_and_range@.take(len as int) =~= path_and_range@);
        }
        return (path_and_range, one);
    }
    let path: &str = path_and_range.substring_char(0, c);
    let r: &str = path_and_range.substring_char(c + 1, len);
    proof {
        assert(path@ =~= path_and_range@.take(c as int));
        assert(r@ =~= path_and_range@.skip(c + 1));
    }
    let rlen: usize = r.unicode_len();
    if rlen >= 2 && r.get_char(0) == '[' && r.get_char(rlen - 1) == ']' {
        let inner: &str = r.substring_char(1, rlen - 1);
        (path, parse_array_entries(inner))
    } else {
        let mut out: Vec<(LineBound, LineBound)> = Vec::new();
        match parse_range(r) {
            Some(rg) => {
                out.push(rg);
                proof {
                    assert(out@ =~= seq![rg]);
                }
            },
            None => {
                proof {
                    assert(out@ =~= Seq::<(LineBound, LineBound)>::empty());
                }
            },
        }
        (path, out)
    }
}

/// Parse the comma-separated entries of a bracketed range array, dropping
/// entries that fail to parse.
fn parse_array_entries(inner: &str) -> (res: Vec<(LineBound, LineBound)>)
    ensures
        res@ == parse_entries(split_commas(inner@)),
{
    let ilen: usize = inner.unicode_len();
    let mut out: Vec<(LineBound, LineBound)> = Vec::new();
    let mut pos: usize = 0;
    proof {
        assert(inner@.skip(0) =~= inner@);
        assert(out@ =~= Seq::<(LineBound, LineBound)>::empty());
        assert(out@ + parse_entries(split_commas(inner@)) =~= parse_entries(split_commas(inner@)));
    }
    loop
        invariant_except_break
            pos <= ilen,
            ilen == inner@.len(),
            parse_entries(split_commas(inner@)) == out@ + parse_entries(
                split_commas(inner@.skip(pos as int)),
            ),
        ensures
            out@ == parse_entries(split_commas(inner@)),
        decreases ilen - pos,
    {
        let cm: usize = find_char(inner, pos, ',');
        let piece: &str = inner.substring_char(pos, cm);
        let ghost rem = inner@.skip(pos as int);
        proof {
            assert(piece@ =~= rem.take(cm - pos));
            if cm < ilen {
                assert(rem[cm - pos] == inner@[cm as int]);
            }
        }
        let trimmed: &str = trim(piece);
        let ghost before = out@;
        match parse_range(trimmed) {
            Some(rg) => {
                out.push(rg);
            },
            None => {},
        }
        if cm == ilen {
            proof {
                // The remainder is a single final entry.
                assert(first_where(rem, eq_pred(',')) == rem.len()) by {
                    crate::chars::lemma_first_where_is(rem, eq_pred(','), rem.len() as int);
                }
                assert(piece@ =~= rem);
                assert(split_commas(rem) == seq![rem]);
                lemma_parse_entries_cons(rem, Seq::empty());
                assert(parse_entries(Seq::<Seq<char>>::empty()) == Seq::<(
                    LineBound,
                    LineBound,
                )>::empty());
                match parse_range_spec(trim_spec(rem)) {
                    Some(rg) => {
                        assert(out@ =~= before + seq![rg]);
                        assert(parse_entries(seq![rem] + Seq::empty()) =~= seq![rg]);
                        assert(seq![rem] + Seq::<Seq<char>>::empty() =~= seq![rem]);
                    },
                    None => {
                        assert(parse_entries(seq![rem] + Seq::empty()) =~= Seq::<(
                            LineBound,
                            LineBound,
                        )>::empty());
                        assert(seq![rem] + Seq::<Seq<char>>::empty() =~= seq![rem]);
                        assert(out@ =~= before);
                    },
                }
            }
            break;
        }
        proof {
            // The remainder splits into this piece and the rest after the comma.
            assert(first_where(rem, eq_pred(',')) == cm - pos) by {
                crate::chars::lemma_first_where_is(rem, eq_pred(','), cm - pos);
            }
            assert(split_commas(rem) == seq![rem.take(cm - pos)] + split_commas(
                rem.skip(cm - pos + 1),
            ));
            assert(rem.skip(cm - pos + 1) =~= inner@.skip(cm + 1));
            lemma_parse_entries_cons(piece@, split_commas(inner@.skip(cm + 1)));
            match parse_range_spec(trim_spec(piece@)) {
                Some(rg) => {
                    assert(out@ =~= before + seq![rg]);
                    assert(before + seq![rg] + parse_entries(split_commas(inner@.skip(cm + 1)))
                        =~= before + (seq![rg] + parse_entries(split_commas(inner@.skip(cm + 1)))));
                },
                None => {},
            }
        }
        pos = cm + 1;
    }
    out
}

/// A bounded selector with inclusive start `n` and exclusive end `m`, as a
/// valid `"N:M"` expression with `N < M` parses to, selects exactly the line
/// indices `n <= i < m`.
pub proof fn lemma_bounded_range_selects(n: usize, m: usize, i: nat)
    requires
        n < m,
    ensures
        range_contains((LineBound::Included(n), LineBound::Excluded(m)), i) <==> (n <= i < m),
{
}

/// Inside an array, the entry `":"` always parses, to the fully unbounded
/// range, and the empty entry never does.
pub proof fn lemma_colon_and_empty_entries()
    ensures
        parse_range_spec(":"@) == Some((LineBound::Unbounded, LineBound::Unbounded)),
        parse_range_spec(Seq::<char>::empty()) == None::<(LineBound, LineBound)>,
{
    reveal_strlit(":");
    let s = ":"@;
    assert(s[0] == ':');
    assert(first_where(s, eq_pred(':')) == 0);
    assert(s.take(0).len() == 0);
    assert(s.skip(1).len() == 0);
    assert(first_where(s.skip(1), eq_pred(':')) == 0);
    let e = Seq::<char>::empty();
    assert(first_where(e, eq_pred(':')) == 0);
    assert(strip_plus(e) == e);
    assert(!dig_seq(e));
}

/// Dropping one malformed entry from an array never invalidates the others:
/// the ranges parsed from the remaining entries are unchanged.
pub proof fn lemma_malformed_entry_dropped(
    before: Seq<Seq<char>>,
    e: Seq<char>,
    after: Seq<Seq<char>>,
)
    requires
        parse_range_spec(trim_spec(e)) == None::<(LineBound, LineBound)>,
    ensures
        parse_entries(before + seq![e] + after) == parse_entries(before + after),
    decreases before.len(),
{
    if before.len() == 0 {
        assert(before + seq![e] + after =~= seq![e] + after);
        assert(before + after =~= after);
        lemma_parse_entries_cons(e, after);
    } else {
        let whole = before + seq![e] + after;
        let slim = before + after;
        assert(whole[0] == before[0]);
        assert(slim[0] == before[0]);
        assert(whole.drop_first() =~= before.drop_first() + seq![e] + after);
        assert(slim.drop_first() =~= before.drop_first() + after);
        lemma_malformed_entry_dropped(before.drop_first(), e, after);
    }
}

} // verus!
