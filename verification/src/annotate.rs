//! The line annotator: given resolved text and a range set, every line whose
//! index is selected by no range is prefixed with the comment marker `"# "`,
//! unless it already carries that marker. The text is split after each
//! `'\n'`; each piece keeps its own terminator — a `"\r\n"` stays `"\r\n"`
//! — and the final terminator, or its absence, is kept as it was. The
//! operation is pure and total: it only ever inserts markers at the start
//! of lines, so the output has the same line count and the same separators
//! as the input.
use vstd::prelude::*;

use crate::chars::eq_pred;
use crate::chars::find_char;
use crate::chars::first_where;
use crate::chars::lemma_first_where;
use crate::chars::lemma_first_where_is;
use crate::range::LineBound;
use crate::range::line_selected;
use crate::range::selected;

verus! {

/// Whether a line already starts with the comment marker `"# "`. The line
/// may carry its terminator: the first two characters are the same either
/// way.
pub open spec fn hash_prefixed(l: Seq<char>) -> bool {
    l.len() >= 2 && l[0] == '#' && l[1] == ' '
}

/// One annotated line, terminator included: kept as it is when it already
/// carries the comment marker or its index is selected, given the marker
/// in front otherwise.
pub open spec fn annotate_line(l: Seq<char>, rs: Seq<(LineBound, LineBound)>, i: nat) -> Seq<
    char,
> {
    if hash_prefixed(l) || selected(rs, i) {
        l
    } else {
        seq!['#', ' '] + l
    }
}

/// The whole annotated text, with `idx` the index of its first line: the
/// text is cut after each `'\n'`, each piece is annotated as
/// [`annotate_line`] with its terminator untouched, and the pieces are
/// concatenated back. Separators and the final terminator stay exactly as
/// they were.
pub open spec fn annotate_text(
    s: Seq<char>,
    rs: Seq<(LineBound, LineBound)>,
    idx: nat,
) -> Seq<char>
    decreases s.len(),
    via annotate_text_dec
{
    if s.len() == 0 {
        Seq::empty()
    } else {
        let n = first_where(s, eq_pred('\n'));
        if n == s.len() {
            annotate_line(s, rs, idx)
        } else {
            annotate_line(s.take(n + 1), rs, idx) + annotate_text(s.skip(n + 1), rs, idx + 1)
        }
    }
}

#[via_fn]
proof fn annotate_text_dec(s: Seq<char>, rs: Seq<(LineBound, LineBound)>, idx: nat) {
    lemma_first_where(s, eq_pred('\n'));
}

/// Annotate one line at runtime.
fn annotate_line_exec(l: &str, ranges: &Vec<(LineBound, LineBound)>, idx: usize) -> (res: String)
    ensures
        res@ == annotate_line(l@, ranges@, idx as nat),
{
    let llen: usize = l.unicode_len();
    let pref = llen >= 2 && l.get_char(0) == '#' && l.get_char(1) == ' ';
    if pref || line_selected(ranges, idx) {
        l.to_owned()
    } else {
        let mut out = String::from_str("# ");
        out.append(l);
        proof {
            reveal_strlit("# ");
            assert("# "@ =~= seq!['#', ' ']);
        }
        out
    }
}

/// Annotate a whole text at runtime, line by line, with `idx` the index of
/// the first line.
fn annotate_rec(s: &str, ranges: &Vec<(LineBound, LineBound)>, idx: usize) -> (res: String)
    requires
        idx + s@.len() <= usize::MAX,
    ensures
        res@ == annotate_text(s@, ranges@, idx as nat),
    decreases s@.len(),
{
    let len: usize = s.unicode_len();
    if len == 0 {
        return String::new();
    }
    let n: usize = find_char(s, 0, '\n');
    proof {
        assert(s@.skip(0) =~= s@);
    }
    if n == len {
        annotate_line_exec(s, ranges, idx)
    } else {
        let line: &str = s.substring_char(0, n + 1);
        proof {
            assert(line@ =~= s@.take(n + 1));
        }
        let mut out = annotate_line_exec(line, ranges, idx);
        let rest: &str = s.substring_char(n + 1, len);
        let tail = annotate_rec(rest, ranges, idx + 1);
        out.append(tail.as_str());
        proof {
            assert(rest@ =~= s@.skip(n + 1));
        }
        out
    }
}

/// Annotate `s` against the range set: every line whose index no range
/// selects is prefixed with `"# "` unless it already starts with `"# "`;
/// line separators and the final terminator stay as they were.
pub fn take_lines_comment_out_rest(s: &str, ranges: Vec<(LineBound, LineBound)>) -> (res: String)
    ensures
        res@ == annotate_text(s@, ranges@, 0),
{
    // Measuring the length establishes that it fits the index type, which
    // the recursion needs for its line counter.
    let _len: usize = s.unicode_len();
    annotate_rec(s, &ranges, 0)
}

/// Annotating a line a second time changes nothing: a line the first pass
/// kept is kept again, and one it marked now starts with the marker.
proof fn lemma_annotate_line_idem(l: Seq<char>, rs: Seq<(LineBound, LineBound)>, i: nat)
    ensures
        annotate_line(annotate_line(l, rs, i), rs, i) == annotate_line(l, rs, i),
{
    if !(hash_prefixed(l) || selected(rs, i)) {
        let a = seq!['#', ' '] + l;
        assert(a[0] == '#' && a[1] == ' ');
        assert(hash_prefixed(a));
    }
}

/// Annotating an annotated text again, with the same ranges and the same
/// first line index, changes nothing.
proof fn lemma_idem_from(s: Seq<char>, rs: Seq<(LineBound, LineBound)>, idx: nat)
    ensures
        annotate_text(annotate_text(s, rs, idx), rs, idx) == annotate_text(s, rs, idx),
    decreases s.len(),
{
    if s.len() == 0 {
        return;
    }
    let n = first_where(s, eq_pred('\n'));
    lemma_first_where(s, eq_pred('\n'));
    if n == s.len() {
        // One unterminated line: the second pass sees one line again.
        let t = annotate_line(s, rs, idx);
        assert(forall|k: int| 0 <= k < t.len() ==> t[k] != '\n') by {
            if !(hash_prefixed(s) || selected(rs, idx)) {
                assert(forall|k: int| 2 <= k < t.len() ==> t[k] == s[k - 2]);
            }
        }
        assert(t.len() > 0);
        lemma_first_where_is(t, eq_pred('\n'), t.len() as int);
        lemma_annotate_line_idem(s, rs, idx);
    } else {
        let line = s.take(n + 1);
        let rest = s.skip(n + 1);
        let a = annotate_line(line, rs, idx);
        let t2 = annotate_text(rest, rs, idx + 1);
        let t = a + t2;
        assert(annotate_text(s, rs, idx) == t);
        // The annotated first line holds exactly one terminator, at its
        // end, so the second pass cuts the text at the same place.
        assert(forall|k: int| 0 <= k < line.len() - 1 ==> line[k] != '\n');
        assert(line[line.len() - 1] == '\n');
        assert(a.last() == '\n' && forall|k: int| 0 <= k < a.len() - 1 ==> a[k] != '\n') by {
            if !(hash_prefixed(line) || selected(rs, idx)) {
                assert(a == seq!['#', ' '] + line);
                assert(forall|k: int| 2 <= k < a.len() ==> a[k] == line[k - 2]);
            }
        }
        assert(forall|k: int| 0 <= k < a.len() - 1 ==> t[k] == a[k]);
        assert(t[a.len() - 1] == '\n');
        lemma_first_where_is(t, eq_pred('\n'), a.len() - 1);
        assert(t.take(a.len() as int) =~= a);
        assert(t.skip(a.len() as int) =~= t2);
        lemma_annotate_line_idem(line, rs, idx);
        lemma_idem_from(rest, rs, idx + 1);
        assert(annotate_text(t, rs, idx) == a + t2);
    }
}

/// Annotating already-annotated text with the same range set yields the
/// identical text: no line gains a second comment marker and no character
/// moves.
pub proof fn lemma_annotate_idempotent(s: Seq<char>, rs: Seq<(LineBound, LineBound)>)
    ensures
        annotate_text(annotate_text(s, rs, 0), rs, 0) == annotate_text(s, rs, 0),
{
    lemma_idem_from(s, rs, 0);
}

} // verus!
