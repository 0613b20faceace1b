//! The patch side of the resolver that can be decided without a repository:
//! reading the option flags of a `diff` command, and rendering each emitted
//! patch line with its kind marker, commenting headers and deletions out
//! when hide mode is on.
use vstd::prelude::*;

use crate::chars::eq_pred;
use crate::chars::find_char;
use crate::chars::first_where;
use crate::range::parse_u32;
use crate::range::parse_u32_spec;

verus! {

/// The interpreted options of a `diff` command: a context-line count from
/// the first `-U<n>` flag, and hide mode from any `-h...` flag.
#[derive(PartialEq, Eq, Structural, Clone, Copy, Debug)]
pub struct DiffOpts {
    pub context_lines: Option<u32>,
    pub hide_header_and_deletion: bool,
}

/// A flag that sets the context-line count: it starts with `-U`.
pub open spec fn is_context_flag(t: Seq<char>) -> bool {
    t.len() >= 2 && t[0] == '-' && t[1] == 'U'
}

/// A flag that turns hide mode on: it starts with `-h`.
pub open spec fn is_hide_flag(t: Seq<char>) -> bool {
    t.len() >= 2 && t[0] == '-' && t[1] == 'h'
}

/// A `-U` flag whose remainder parses as a 32-bit count: only such a flag
/// sets the context-line count.
pub open spec fn is_valid_context_flag(t: Seq<char>) -> bool {
    is_context_flag(t) && parse_u32_spec(t.skip(2)) is Some
}

/// The valid-context-flag predicate, as a value.
pub open spec fn valid_context_flag_pred() -> spec_fn(Seq<char>) -> bool {
    |t: Seq<char>| is_valid_context_flag(t)
}

/// What reading the option flags returns: the count of the first `-U` flag
/// whose suffix parses as a 32-bit number, and whether any `-h` flag
/// occurs. Flags of any other shape — a malformed `-U` count among them —
/// are inert: options are a flat set of tokens and an unrecognized one is
/// ignored, never an error.
pub open spec fn parse_diff_options_spec(os: Seq<Seq<char>>) -> DiffOpts {
    let hide_mode = exists|k: int| 0 <= k < os.len() && is_hide_flag(#[trigger] os[k]);
    let u = first_where(os, valid_context_flag_pred());
    DiffOpts {
        context_lines: if u == os.len() {
            None
        } else {
            match parse_u32_spec(os[u].skip(2)) {
                Some(n) => Some(n),
                None => None,
            }
        },
        hide_header_and_deletion: hide_mode,
    }
}

/// Runtime test for [`is_context_flag`].
fn is_context_flag_exec(t: &String) -> (res: bool)
    ensures
        res == is_context_flag(t@),
{
    let s: &str = t.as_str();
    s.unicode_len() >= 2 && s.get_char(0) == '-' && s.get_char(1) == 'U'
}

/// Read the option flags of a `diff` command, as
/// [`parse_diff_options_spec`] describes.
pub fn parse_diff_options(options: &Vec<String>) -> (res: DiffOpts)
    ensures
        res == parse_diff_options_spec(crate::command::string_views(options@)),
{
    let ghost os = crate::command::string_views(options@);
    let mut hide_mode = false;
    let mut k: usize = 0;
    while k < options.len()
        invariant
            0 <= k <= options@.len(),
            os == crate::command::string_views(options@),
            hide_mode == exists|j: int| 0 <= j < k && is_hide_flag(#[trigger] os[j]),
        decreases options@.len() - k,
    {
        let s: &str = options[k].as_str();
        proof {
            assert(s@ == os[k as int]);
        }
        let is_h = s.unicode_len() >= 2 && s.get_char(0) == '-' && s.get_char(1) == 'h';
        if is_h {
            hide_mode = true;
        }
        proof {
            if is_h {
                assert(is_hide_flag(os[k as int]));
            } else {
                assert(!is_hide_flag(os[k as int]));
            }
        }
        k = k + 1;
    }
    let mut u: usize = 0;
    while u < options.len()
        invariant
            0 <= u <= options@.len(),
            os == crate::command::string_views(options@),
            hide_mode == exists|j: int| 0 <= j < os.len() && is_hide_flag(#[trigger] os[j]),
            forall|j: int| 0 <= j < u ==> !is_valid_context_flag(#[trigger] os[j]),
        decreases options@.len() - u,
    {
        if is_context_flag_exec(&options[u]) {
            let s: &str = options[u].as_str();
            let slen: usize = s.unicode_len();
            let tail: &str = s.substring_char(2, slen);
            proof {
                assert(tail@ =~= os[u as int].skip(2));
            }
            match parse_u32(tail) {
                Some(n) => {
                    proof {
                        crate::chars::lemma_first_where_is(os, valid_context_flag_pred(), u as int);
                    }
                    return DiffOpts { context_lines: Some(n), hide_header_and_deletion: hide_mode };
                },
                None => {
                    proof {
                        assert(!is_valid_context_flag(os[u as int]));
                    }
                },
            }
        } else {
            proof {
                assert(!is_valid_context_flag(os[u as int]));
            }
        }
        u = u + 1;
    }
    proof {
        crate::chars::lemma_first_where_is(os, valid_context_flag_pred(), os.len() as int);
    }
    DiffOpts { context_lines: None, hide_header_and_deletion: hide_mode }
}

/// A line with one trailing carriage return removed, as the splitting of
/// emitted patch content does to a line terminated by `"\r\n"`.
pub open spec fn strip_cr(l: Seq<char>) -> Seq<char> {
    if l.len() > 0 && l.last() == '\r' {
        l.drop_last()
    } else {
        l
    }
}

/// The kind of one emitted patch line, as the patch printer reports it.
#[derive(PartialEq, Eq, Structural, Clone, Copy, Debug)]
pub enum DiffLineKind {
    Addition,
    Deletion,
    Context,
    Header,
}

/// The one-character origin marker a content line keeps; header lines have
/// none.
pub open spec fn kind_marker(kind: DiffLineKind) -> Seq<char> {
    match kind {
        DiffLineKind::Addition => seq!['+'],
        DiffLineKind::Deletion => seq!['-'],
        DiffLineKind::Context => seq![' '],
        DiffLineKind::Header => Seq::empty(),
    }
}

/// What one rendered line starts with: the comment marker when hide mode is
/// on and the line is neither an addition nor context, then the kind
/// marker.
pub open spec fn line_lead(kind: DiffLineKind, hide: bool) -> Seq<char> {
    (if hide && !(kind == DiffLineKind::Addition || kind == DiffLineKind::Context) {
        seq!['#', ' ']
    } else {
        Seq::<char>::empty()
    }) + kind_marker(kind)
}

/// The rendered text of one emitted patch line: each of its lines — the
/// emitted content normally holds one — gains the lead of its kind and a
/// terminating newline; a `"\r\n"` terminator loses its `'\r'`.
pub open spec fn render_diff_content(s: Seq<char>, kind: DiffLineKind, hide: bool) -> Seq<char>
    decreases s.len(),
    via render_diff_content_dec
{
    if s.len() == 0 {
        Seq::empty()
    } else {
        let n = first_where(s, eq_pred('\n'));
        if n == s.len() {
            line_lead(kind, hide) + s + seq!['\n']
        } else if n + 1 == s.len() {
            line_lead(kind, hide) + strip_cr(s.take(n)) + seq!['\n']
        } else {
            line_lead(kind, hide) + strip_cr(s.take(n)) + seq!['\n'] + render_diff_content(
                s.skip(n + 1),
                kind,
                hide,
            )
        }
    }
}

#[via_fn]
proof fn render_diff_content_dec(s: Seq<char>, kind: DiffLineKind, hide: bool) {
    crate::chars::lemma_first_where(s, eq_pred('\n'));
}

/// Append the lead of one rendered line.
fn push_line_lead(out: &mut String, kind: DiffLineKind, hide: bool)
    ensures
        final(out)@ == old(out)@ + line_lead(kind, hide),
{
    proof {
        reveal_strlit("# ");
        reveal_strlit("+");
        reveal_strlit("-");
        reveal_strlit(" ");
        assert("# "@ =~= seq!['#', ' ']);
        assert("+"@ =~= seq!['+']);
        assert("-"@ =~= seq!['-']);
        assert(" "@ =~= seq![' ']);
    }
    let ghost before = out@;
    if hide && !(matches!(kind, DiffLineKind::Addition | DiffLineKind::Context)) {
        out.append("# ");
    }
    match kind {
        DiffLineKind::Addition => out.append("+"),
        DiffLineKind::Deletion => out.append("-"),
        DiffLineKind::Context => out.append(" "),
        DiffLineKind::Header => {},
    }
    proof {
        assert(out@ =~= before + line_lead(kind, hide));
    }
}

/// Render the content of one emitted patch line, recursively over its
/// lines.
fn render_rec(s: &str, kind: DiffLineKind, hide: bool) -> (res: String)
    ensures
        res@ == render_diff_content(s@, kind, hide),
    decreases s@.len(),
{
    proof {
        reveal_strlit("\n");
        assert("\n"@ =~= seq!['\n']);
    }
    let len: usize = s.unicode_len();
    if len == 0 {
        return String::new();
    }
    let n: usize = find_char(s, 0, '\n');
    proof {
        assert(s@.skip(0) =~= s@);
    }
    let mut out = String::new();
    push_line_lead(&mut out, kind, hide);
    if n == len {
        out.append(s);
        out.append("\n");
        proof {
            assert(out@ =~= render_diff_content(s@, kind, hide));
        }
        out
    } else {
        let line: &str = if n > 0 && s.get_char(n - 1) == '\r' {
            s.substring_char(0, n - 1)
        } else {
            s.substring_char(0, n)
        };
        proof {
            if n > 0 && s@[n - 1] == '\r' {
                assert(s@.take(n as int).last() == s@[n - 1]);
            }
            assert(line@ =~= strip_cr(s@.take(n as int)));
        }
        out.append(line);
        out.append("\n");
        if n + 1 == len {
            proof {
                assert(out@ =~= render_diff_content(s@, kind, hide));
            }
            out
        } else {
            let rest: &str = s.substring_char(n + 1, len);
            let tail = render_rec(rest, kind, hide);
            out.append(tail.as_str());
            proof {
                assert(rest@ =~= s@.skip(n + 1));
                assert(out@ =~= render_diff_content(s@, kind, hide));
            }
            out
        }
    }
}

/// Append the rendered form of one emitted patch line to the patch text
/// under construction, as [`render_diff_content`] describes.
pub fn append_rendered_diff_line(out: &mut String, content: &str, kind: DiffLineKind, hide: bool)
    ensures
        final(out)@ == old(out)@ + render_diff_content(content@, kind, hide),
{
    let rendered = render_rec(content, kind, hide);
    out.append(rendered.as_str());
}

} // verus!
