//! The token scanner: finds every `{{ #git ... }}` occurrence in a text
//! body, left to right and non-overlapping, and exposes each as its span in
//! character offsets together with the raw body between the `#git` keyword
//! and the closing braces.
//!
//! A token is an opening `{{`, optional whitespace, the keyword `#git`, at
//! least one whitespace character, then one or more characters none of which
//! is `}`, closed by `}}`. Matching is purely syntactic: candidate starts
//! are tried left to right, and scanning resumes after each match.
use vstd::prelude::*;

use crate::chars::eq_pred;
use crate::chars::find_char;
use crate::chars::find_non_space;
use crate::chars::first_where;
use crate::chars::is_space;
use crate::chars::is_space_char;
use crate::chars::lemma_first_where;
use crate::chars::non_space_pred;

verus! {

/// One token occurrence: the span `[start, end)` of the whole token in the
/// scanned text, in character offsets, and the body between the keyword and
/// the closing braces (it begins with the separating whitespace).
pub struct GitToken {
    pub start: usize,
    pub end: usize,
    pub body: String,
}

/// The mathematical shape of one token occurrence.
pub struct GitTokenView {
    pub start: int,
    pub end: int,
    pub body: Seq<char>,
}

impl View for GitToken {
    type V = GitTokenView;

    open spec fn view(&self) -> GitTokenView {
        GitTokenView { start: self.start as int, end: self.end as int, body: self.body@ }
    }
}

/// The views of a list of token occurrences.
pub open spec fn token_views(toks: Seq<GitToken>) -> Seq<GitTokenView> {
    toks.map_values(|tk: GitToken| tk@)
}

/// The token match attempted at position `i` of `t`: `Some((end, bs, be))`
/// when a token starts exactly at `i`, where `end` is the position just past
/// the closing braces and `[bs, be)` is the body span.
pub open spec fn match_at(t: Seq<char>, i: int) -> Option<(int, int, int)> {
    if !(0 <= i && i + 2 <= t.len() && t[i] == '{' && t[i + 1] == '{') {
        None
    } else {
        let j = i + 2 + first_where(t.skip(i + 2), non_space_pred());
        if !(j + 4 <= t.len() && t[j] == '#' && t[j + 1] == 'g' && t[j + 2] == 'i' && t[j + 3]
            == 't') {
            None
        } else {
            let p = j + 4;
            if !(p < t.len() && is_space(t[p])) {
                None
            } else {
                let q = p + first_where(t.skip(p), eq_pred('}'));
                if q >= p + 2 && q + 1 < t.len() && t[q + 1] == '}' {
                    Some((q + 2, p, q))
                } else {
                    None
                }
            }
        }
    }
}

/// All tokens of `t` at or after position `i`, in order: the match at the
/// first position where one starts, then the tokens after its end.
pub open spec fn scan_from(t: Seq<char>, i: int) -> Seq<GitTokenView>
    decreases t.len() - i,
    via scan_from_dec
{
    if i >= t.len() {
        Seq::empty()
    } else {
        match match_at(t, i) {
            Some(m) => seq![
                GitTokenView { start: i, end: m.0, body: t.subrange(m.1, m.2) },
            ] + scan_from(t, m.0),
            None => scan_from(t, i + 1),
        }
    }
}

#[via_fn]
proof fn scan_from_dec(t: Seq<char>, i: int) {
    if i < t.len() {
        lemma_first_where(t.skip(i + 2), non_space_pred());
    }
}

/// Attempt the token match at position `i`, as [`match_at`] describes.
fn try_match(t: &str, i: usize, len: usize) -> (res: Option<(usize, usize, usize)>)
    requires
        i < len,
        len == t@.len(),
    ensures
        match res {
            Some(m) => {
                &&& match_at(t@, i as int) == Some((m.0 as int, m.1 as int, m.2 as int))
                &&& i < m.0 <= len
                &&& m.1 <= m.2 <= len
            },
            None => match_at(t@, i as int) is None,
        },
{
    if i + 1 >= len {
        return None;
    }
    if !(t.get_char(i) == '{' && t.get_char(i + 1) == '{') {
        return None;
    }
    let j: usize = find_non_space(t, i + 2);
    if len < 4 || j > len - 4 {
        return None;
    }
    if !(t.get_char(j) == '#' && t.get_char(j + 1) == 'g' && t.get_char(j + 2) == 'i'
        && t.get_char(j + 3) == 't') {
        return None;
    }
    let p: usize = j + 4;
    if !(p < len && is_space_char(t.get_char(p))) {
        return None;
    }
    let q: usize = find_char(t, p, '}');
    if q - p >= 2 && q < len && q + 1 < len && t.get_char(q + 1) == '}' {
        Some((q + 2, p, q))
    } else {
        None
    }
}

/// Find every token occurrence in `text`, left to right, as [`scan_from`]
/// describes from position zero. The spans come ordered and
/// non-overlapping, inside the text: exactly what the splicer's
/// well-formedness asks of them.
pub fn find_git_cmds(text: &str) -> (res: Vec<GitToken>)
    ensures
        token_views(res@) == scan_from(text@, 0),
        forall|k: int|
            0 <= k < res@.len() ==> (#[trigger] res@[k]).start < res@[k].end && res@[k].end
                <= text@.len(),
        forall|k: int| 0 <= k && k + 1 < res@.len() ==> (#[trigger] res@[k]).end <= res@[k + 1].start,
{
    let len: usize = text.unicode_len();
    let mut out: Vec<GitToken> = Vec::new();
    let mut i: usize = 0;
    proof {
        assert(token_views(out@) + scan_from(text@, 0) =~= scan_from(text@, 0));
    }
    while i < len
        invariant
            i <= len,
            len == text@.len(),
            scan_from(text@, 0) == token_views(out@) + scan_from(text@, i as int),
            forall|k: int|
                0 <= k < out@.len() ==> (#[trigger] out@[k]).start < out@[k].end && out@[k].end
                    <= i,
            forall|k: int|
                0 <= k && k + 1 < out@.len() ==> (#[trigger] out@[k]).end <= out@[k + 1].start,
        decreases len - i,
    {
        match try_match(text, i, len) {
            Some(m) => {
                let body: String = text.substring_char(m.1, m.2).to_owned();
                let tok = GitToken { start: i, end: m.0, body };
                let ghost old_views = token_views(out@);
                let ghost prev = out@;
                let ghost tv = tok@;
                out.push(tok);
                proof {
                    assert(forall|k: int| 0 <= k < prev.len() ==> out@[k] == prev[k]);
                    assert(out@[out@.len() - 1].start == i && out@[out@.len() - 1].end == m.0);
                    assert forall|k: int|
                        0 <= k < out@.len() implies (#[trigger] out@[k]).start < out@[k].end
                        && out@[k].end <= m.0 by {
                        if k < prev.len() {
                            assert(out@[k] == prev[k]);
                        }
                    }
                    assert forall|k: int|
                        0 <= k && k + 1 < out@.len() implies (#[trigger] out@[k]).end <= out@[k
                        + 1].start by {
                        assert(out@[k] == prev[k]);
                        if k + 1 < out@.len() - 1 {
                            assert(out@[k + 1] == prev[k + 1]);
                        } else {
                            assert(prev[k].end <= i);
                            assert(out@[k + 1].start == i);
                        }
                    }
                    assert(token_views(out@) =~= old_views.push(tv));
                    assert(scan_from(text@, i as int) == seq![tv] + scan_from(text@, m.0 as int));
                    assert(old_views.push(tv) + scan_from(text@, m.0 as int) =~= old_views + (
                    seq![tv] + scan_from(text@, m.0 as int)));
                }
                i = m.0;
            },
            None => {
                proof {
                    assert(scan_from(text@, i as int) == scan_from(text@, i + 1));
                }
                i = i + 1;
            },
        }
    }
    proof {
        assert(scan_from(text@, i as int) =~= Seq::<GitTokenView>::empty());
        assert(token_views(out@) + scan_from(text@, i as int) =~= token_views(out@));
    }
    out
}

} // verus!
