//! The command parser: turns the captured body of one token into a
//! structured command, or signals that the body is not a command, in which
//! case the caller must preserve the original token verbatim.
//!
//! The body is split on whitespace; option flags (tokens starting with `-`)
//! are moved after the positional arguments by a stable partition; the first
//! positional token picks the command: `show <revision>:<path>[:<ranges>]`
//! or `diff <old> <new> <path>[:<ranges>] [flags...]`. A command whose range
//! set parses to nothing is rejected.
use vstd::prelude::*;

use crate::chars::eq_pred;
use crate::chars::find_char;
use crate::chars::find_non_space;
use crate::chars::find_space;
use crate::chars::first_where;
use crate::chars::is_space;
use crate::chars::non_space_pred;
use crate::chars::space_pred;
use crate::chars::str_eq;
use crate::range::LineBound;
use crate::range::parse_path_and_ranges;
use crate::range::parse_path_ranges_spec;

verus! {

/// The whitespace-separated tokens of `s`, in order, with no empty tokens.
pub open spec fn split_ws_spec(s: Seq<char>) -> Seq<Seq<char>>
    decreases s.len(),
    via split_ws_spec_dec
{
    if s.len() == 0 {
        Seq::empty()
    } else if is_space(s[0]) {
        split_ws_spec(s.drop_first())
    } else {
        let e = first_where(s, space_pred());
        seq![s.take(e)] + split_ws_spec(s.skip(e))
    }
}

#[via_fn]
proof fn split_ws_spec_dec(s: Seq<char>) {
    crate::chars::lemma_first_where(s, space_pred());
    if s.len() > 0 && !is_space(s[0]) {
        assert(first_where(s, space_pred()) >= 1);
    }
}

/// Dropping leading whitespace does not change the token split.
proof fn lemma_split_ws_skip_spaces(s: Seq<char>, i: int, j: int)
    requires
        0 <= i <= j <= s.len(),
        forall|k: int| i <= k < j ==> is_space(s[k]),
    ensures
        split_ws_spec(s.skip(i)) == split_ws_spec(s.skip(j)),
    decreases j - i,
{
    if i < j {
        assert(s.skip(i).len() > 0);
        assert(s.skip(i)[0] == s[i]);
        assert(s.skip(i).drop_first() =~= s.skip(i + 1));
        lemma_split_ws_skip_spaces(s, i + 1, j);
    }
}

/// The views of a list of owned tokens.
pub open spec fn string_views(ts: Seq<String>) -> Seq<Seq<char>> {
    ts.map_values(|t: String| t@)
}

/// Split a body on whitespace at runtime, as [`split_ws_spec`] describes.
fn split_ws(s: &str) -> (res: Vec<String>)
    ensures
        string_views(res@) == split_ws_spec(s@),
{
    let len: usize = s.unicode_len();
    let mut out: Vec<String> = Vec::new();
    let mut pos: usize = 0;
    proof {
        assert(s@.skip(0) =~= s@);
        assert(string_views(out@) + split_ws_spec(s@) =~= split_ws_spec(s@));
    }
    loop
        invariant_except_break
            pos <= len,
            len == s@.len(),
            split_ws_spec(s@) == string_views(out@) + split_ws_spec(s@.skip(pos as int)),
        ensures
            string_views(out@) == split_ws_spec(s@),
        decreases len - pos,
    {
        let a: usize = find_non_space(s, pos);
        proof {
            lemma_split_ws_skip_spaces(s@, pos as int, a as int);
        }
        if a == len {
            proof {
                assert(s@.skip(len as int).len() == 0);
                assert(split_ws_spec(s@.skip(len as int)) =~= Seq::<Seq<char>>::empty());
                assert(string_views(out@) + Seq::<Seq<char>>::empty() =~= string_views(out@));
            }
            break;
        }
        let b: usize = find_space(s, a);
        let piece: String = s.substring_char(a, b).to_owned();
        let ghost old_views = string_views(out@);
        let ghost rem = s@.skip(a as int);
        out.push(piece);
        proof {
            assert(rem.len() > 0 && !is_space(rem[0]));
            crate::chars::lemma_first_where_is(rem, space_pred(), b - a);
            assert(split_ws_spec(rem) == seq![rem.take(b - a)] + split_ws_spec(rem.skip(b - a)));
            assert(rem.take(b - a) =~= s@.subrange(a as int, b as int));
            assert(rem.skip(b - a) =~= s@.skip(b as int));
            assert(string_views(out@) =~= old_views.push(s@.subrange(a as int, b as int)));
            assert(old_views.push(s@.subrange(a as int, b as int)) + split_ws_spec(
                s@.skip(b as int),
            ) =~= old_views + (seq![s@.subrange(a as int, b as int)] + split_ws_spec(
                s@.skip(b as int),
            )));
        }
        pos = b;
    }
    out
}

/// An option flag: a token that starts with `-`.
pub open spec fn is_flag(t: Seq<char>) -> bool {
    t.len() > 0 && t[0] == '-'
}

/// The flag predicate, as a value.
pub open spec fn flag_pred() -> spec_fn(Seq<char>) -> bool {
    |t: Seq<char>| is_flag(t)
}

/// The non-flag predicate, as a value.
pub open spec fn not_flag_pred() -> spec_fn(Seq<char>) -> bool {
    |t: Seq<char>| !is_flag(t)
}

/// The stable partition that moves option flags after positional arguments,
/// keeping the relative order inside each class.
pub open spec fn partition_flags(ts: Seq<Seq<char>>) -> Seq<Seq<char>> {
    ts.filter(not_flag_pred()) + ts.filter(flag_pred())
}

/// Runtime test whether an owned token is an option flag.
fn is_flag_exec(t: &String) -> (res: bool)
    ensures
        res == is_flag(t@),
{
    t.as_str().unicode_len() > 0 && t.as_str().get_char(0) == '-'
}

/// Stable partition at runtime, as [`partition_flags`] describes.
fn partition_tokens(ts: Vec<String>) -> (res: Vec<String>)
    ensures
        string_views(res@) == partition_flags(string_views(ts@)),
{
    broadcast use Seq::lemma_filter_push;

    let ghost all = string_views(ts@);
    let mut args: Vec<String> = Vec::new();
    let mut flags: Vec<String> = Vec::new();
    let mut k: usize = 0;
    proof {
        assert(all.take(0) =~= Seq::<Seq<char>>::empty());
        assert(Seq::<Seq<char>>::empty().filter(not_flag_pred()) =~= Seq::<Seq<char>>::empty());
        assert(Seq::<Seq<char>>::empty().filter(flag_pred()) =~= Seq::<Seq<char>>::empty());
        assert(string_views(args@) =~= Seq::<Seq<char>>::empty());
        assert(string_views(flags@) =~= Seq::<Seq<char>>::empty());
    }
    while k < ts.len()
        invariant
            0 <= k <= ts@.len(),
            all == string_views(ts@),
            string_views(args@) == all.take(k as int).filter(not_flag_pred()),
            string_views(flags@) == all.take(k as int).filter(flag_pred()),
        decreases ts@.len() - k,
    {
        let t = ts[k].clone();
        let ghost old_args = string_views(args@);
        let ghost old_flags = string_views(flags@);
        proof {
            assert(all.take(k + 1) =~= all.take(k as int).push(all[k as int]));
            assert(t@ == all[k as int]);
            all.take(k as int).lemma_filter_push(all[k as int], not_flag_pred());
            all.take(k as int).lemma_filter_push(all[k as int], flag_pred());
        }
        if is_flag_exec(&t) {
            flags.push(t);
            proof {
                assert(string_views(flags@) =~= old_flags.push(all[k as int]));
            }
        } else {
            args.push(t);
            proof {
                assert(string_views(args@) =~= old_args.push(all[k as int]));
            }
        }
        k = k + 1;
    }
    proof {
        assert(all.take(ts@.len() as int) =~= all);
    }
    let ghost args_views = string_views(args@);
    let ghost flag_views = string_views(flags@);
    let mut out = args;
    out.append(&mut flags);
    proof {
        assert(string_views(out@) =~= args_views + flag_views);
    }
    out
}

/// A parsed command: a snapshot request or a patch request, with the range
/// set to spotlight and, for a patch, the option flags kept verbatim.
pub enum GitCmd {
    Show { id: String, path: String, ranges: Vec<(LineBound, LineBound)> },
    Diff {
        old: String,
        new: String,
        path: String,
        ranges: Vec<(LineBound, LineBound)>,
        options: Vec<String>,
    },
}

/// The mathematical shape of a parsed command.
pub enum GitCmdView {
    Show { id: Seq<char>, path: Seq<char>, ranges: Seq<(LineBound, LineBound)> },
    Diff {
        old: Seq<char>,
        new: Seq<char>,
        path: Seq<char>,
        ranges: Seq<(LineBound, LineBound)>,
        options: Seq<Seq<char>>,
    },
}

impl View for GitCmd {
    type V = GitCmdView;

    open spec fn view(&self) -> GitCmdView {
        match self {
            GitCmd::Show { id, path, ranges } => GitCmdView::Show {
                id: id@,
                path: path@,
                ranges: ranges@,
            },
            GitCmd::Diff { old, new, path, ranges, options } => GitCmdView::Diff {
                old: old@,
                new: new@,
                path: path@,
                ranges: ranges@,
                options: string_views(options@),
            },
        }
    }
}

/// What parsing one captured body returns: the command it denotes, or
/// nothing when the body is not a command. A `show` needs a second
/// positional token — a flag cannot stand in for it — of the form
/// `<revision>:<path...>` with a non-empty revision; a `diff` needs three
/// more positional tokens, none of them flags, and keeps everything after
/// them as options; either is rejected when its range set parses to
/// nothing.
pub open spec fn parse_cmd_spec(body: Seq<char>) -> Option<GitCmdView> {
    let parts = partition_flags(split_ws_spec(body));
    if parts.len() >= 2 && parts[0] == "show"@ && !is_flag(parts[1]) {
        let t = parts[1];
        let c = first_where(t, eq_pred(':'));
        if c == t.len() || c == 0 {
            None
        } else {
            let pr = parse_path_ranges_spec(t.skip(c + 1));
            if pr.1.len() == 0 {
                None
            } else {
                Some(GitCmdView::Show { id: t.take(c), path: pr.0, ranges: pr.1 })
            }
        }
    } else if parts.len() >= 4 && parts[0] == "diff"@ && !is_flag(parts[1]) && !is_flag(parts[2])
        && !is_flag(parts[3]) {
        let pr = parse_path_ranges_spec(parts[3]);
        if pr.1.len() == 0 {
            None
        } else {
            Some(
                GitCmdView::Diff {
                    old: parts[1],
                    new: parts[2],
                    path: pr.0,
                    ranges: pr.1,
                    options: parts.skip(4),
                },
            )
        }
    } else {
        None
    }
}

/// Parse one captured body, as [`parse_cmd_spec`] describes.
pub fn parse_git_cmd(body: &str) -> (res: Option<GitCmd>)
    ensures
        match res {
            Some(cmd) => parse_cmd_spec(body@) == Some(cmd@),
            None => parse_cmd_spec(body@) is None,
        },
{
    let toks = split_ws(body);
    let parts = partition_tokens(toks);
    let ghost pviews = partition_flags(split_ws_spec(body@));
    proof {
        assert(string_views(parts@) == pviews);
    }
    if parts.len() >= 2 && str_eq(parts[0].as_str(), "show") && !is_flag_exec(&parts[1]) {
        let t: &str = parts[1].as_str();
        let tlen: usize = t.unicode_len();
        let c: usize = find_char(t, 0, ':');
        proof {
            assert(t@.skip(0) =~= t@);
            assert(t@ == pviews[1]);
        }
        if c == tlen || c == 0 {
            return None;
        }
        let id: String = t.substring_char(0, c).to_owned();
        let pr_input: &str = t.substring_char(c + 1, tlen);
        proof {
            assert(pr_input@ =~= t@.skip(c + 1));
            assert(id@ =~= t@.take(c as int));
        }
        let (path, ranges) = parse_path_and_ranges(pr_input);
        if ranges.len() == 0 {
            return None;
        }
        Some(GitCmd::Show { id, path: path.to_owned(), ranges })
    } else if parts.len() >= 4 && str_eq(parts[0].as_str(), "diff") && !is_flag_exec(&parts[1])
        && !is_flag_exec(&parts[2]) && !is_flag_exec(&parts[3]) {
        let pnr: &str = parts[3].as_str();
        proof {
            assert(pnr@ == pviews[3]);
        }
        let (path, ranges) = parse_path_and_ranges(pnr);
        if ranges.len() == 0 {
            return None;
        }
        let old = parts[1].clone();
        let new = parts[2].clone();
        let mut options: Vec<String> = Vec::new();
        let mut k: usize = 4;
        proof {
            assert(string_views(options@) =~= pviews.skip(4).take(0));
        }
        while k < parts.len()
            invariant
                4 <= k <= parts@.len(),
                parts@.len() >= 4,
                string_views(parts@) == pviews,
                string_views(options@) == pviews.skip(4).take(k - 4),
            decreases parts@.len() - k,
        {
            let ghost old_views = string_views(options@);
            options.push(parts[k].clone());
            proof {
                assert(string_views(options@) =~= old_views.push(pviews[k as int]));
                assert(pviews.skip(4).take(k - 4 + 1) =~= pviews.skip(4).take(k - 4).push(
                    pviews[k as int],
                ));
            }
            k = k + 1;
        }
        proof {
            assert(pviews.skip(4).take(pviews.len() - 4) =~= pviews.skip(4));
        }
        Some(GitCmd::Diff { old, new, path: path.to_owned(), ranges, options })
    } else {
        None
    }
}

} // verus!
