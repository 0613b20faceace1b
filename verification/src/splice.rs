//! The splicer: writes resolved replacements back into the original text at
//! the token spans they came from, left to right. A span whose resolution
//! failed is left as the literal original text, so a bad token never
//! corrupts its surroundings.
use vstd::prelude::*;

verus! {

/// One replacement order: the span `[start, end)` of a token in the original
/// text, in character offsets, and the text to put there — or nothing, when
/// the token could not be resolved and its span must stay as it is.
pub struct SpliceItem {
    pub start: usize,
    pub end: usize,
    pub replacement: Option<String>,
}

/// The mathematical shape of one replacement order.
pub struct SpliceItemView {
    pub start: int,
    pub end: int,
    pub replacement: Option<Seq<char>>,
}

impl View for SpliceItem {
    type V = SpliceItemView;

    open spec fn view(&self) -> SpliceItemView {
        SpliceItemView {
            start: self.start as int,
            end: self.end as int,
            replacement: match self.replacement {
                Some(r) => Some(r@),
                None => None,
            },
        }
    }
}

/// The views of a list of replacement orders.
pub open spec fn item_views(items: Seq<SpliceItem>) -> Seq<SpliceItemView> {
    items.map_values(|it: SpliceItem| it@)
}

/// Whether the spans are ordered left to right, non-overlapping, and inside
/// a text of length `len`, starting at or after `prev`.
pub open spec fn wf_items(items: Seq<SpliceItemView>, prev: int, len: int) -> bool
    decreases items.len(),
{
    items.len() == 0 || (prev <= items[0].start && items[0].start <= items[0].end
        && items[0].end <= len && wf_items(items.drop_first(), items[0].end, len))
}

/// The spliced text from position `prev` on: the text up to the next span,
/// then the replacement — or the span's own text when resolution failed —
/// and so on; after the last span, the rest of the text.
pub open spec fn splice_from(t: Seq<char>, items: Seq<SpliceItemView>, prev: int) -> Seq<char>
    decreases items.len(),
{
    if items.len() == 0 {
        t.skip(prev)
    } else {
        t.subrange(prev, items[0].start) + (match items[0].replacement {
            Some(r) => r,
            None => t.subrange(items[0].start, items[0].end),
        }) + splice_from(t, items.drop_first(), items[0].end)
    }
}

/// Runtime validation of [`wf_items`].
fn items_well_formed(text_len: usize, items: &Vec<SpliceItem>) -> (res: bool)
    ensures
        res == wf_items(item_views(items@), 0, text_len as int),
{
    let ghost views = item_views(items@);
    let mut prev: usize = 0;
    let mut k: usize = 0;
    proof {
        assert(views.skip(0) =~= views);
    }
    while k < items.len()
        invariant
            0 <= k <= items@.len(),
            prev <= text_len,
            views == item_views(items@),
            wf_items(views, 0, text_len as int) == wf_items(
                views.skip(k as int),
                prev as int,
                text_len as int,
            ),
        decreases items@.len() - k,
    {
        let it_start = items[k].start;
        let it_end = items[k].end;
        proof {
            assert(views.skip(k as int)[0] == views[k as int]);
            assert(views[k as int] == items@[k as int]@);
            assert(views.skip(k as int).drop_first() =~= views.skip(k + 1));
        }
        if !(prev <= it_start && it_start <= it_end && it_end <= text_len) {
            return false;
        }
        prev = it_end;
        k = k + 1;
    }
    proof {
        assert(views.skip(items@.len() as int).len() == 0);
    }
    true
}

/// Splice the replacements into `text`, as [`splice_from`] describes, after
/// checking that the spans are ordered, non-overlapping and in bounds;
/// ill-formed spans yield nothing rather than a corrupted text.
pub fn splice(text: &str, items: &Vec<SpliceItem>) -> (res: Option<String>)
    ensures
        res is Some <==> wf_items(item_views(items@), 0, text@.len() as int),
        res matches Some(r) ==> r@ == splice_from(text@, item_views(items@), 0),
{
    let len: usize = text.unicode_len();
    if !items_well_formed(len, items) {
        return None;
    }
    let ghost views = item_views(items@);
    let mut out = String::new();
    let mut prev: usize = 0;
    let mut k: usize = 0;
    proof {
        assert(views.skip(0) =~= views);
        assert(out@ + splice_from(text@, views, 0) =~= splice_from(text@, views, 0));
    }
    while k < items.len()
        invariant
            0 <= k <= items@.len(),
            prev <= len,
            len == text@.len(),
            views == item_views(items@),
            wf_items(views.skip(k as int), prev as int, len as int),
            splice_from(text@, views, 0) == out@ + splice_from(
                text@,
                views.skip(k as int),
                prev as int,
            ),
        decreases items@.len() - k,
    {
        proof {
            assert(views.skip(k as int)[0] == views[k as int]);
            assert(views[k as int] == items@[k as int]@);
            assert(views.skip(k as int).drop_first() =~= views.skip(k + 1));
        }
        let it_start = items[k].start;
        let it_end = items[k].end;
        let ghost rest = splice_from(text@, views.skip(k + 1), it_end as int);
        out.append(text.substring_char(prev, it_start));
        match &items[k].replacement {
            Some(r) => {
                out.append(r.as_str());
            },
            None => {
                out.append(text.substring_char(it_start, it_end));
            },
        }
        proof {
            assert(splice_from(text@, views.skip(k as int), prev as int) == text@.subrange(
                prev as int,
                it_start as int,
            ) + (match views[k as int].replacement {
                Some(r) => r,
                None => text@.subrange(it_start as int, it_end as int),
            }) + rest);
            assert(out@ + rest =~= splice_from(text@, views, 0));
        }
        prev = it_end;
        k = k + 1;
    }
    out.append(text.substring_char(prev, len));
    proof {
        assert(views.skip(items@.len() as int).len() == 0);
        assert(splice_from(text@, views.skip(items@.len() as int), prev as int) == text@.skip(
            prev as int,
        ));
    }
    Some(out)
}

/// Splicing one resolved token embeds its replacement exactly between the
/// text before its span and the text after it; with the scanner's span for
/// a token and the annotator's output as the replacement, this is the whole
/// shape of a one-token rewrite.
pub proof fn lemma_single_replacement(t: Seq<char>, it: SpliceItemView, r: Seq<char>)
    requires
        0 <= it.start <= it.end <= t.len(),
        it.replacement == Some(r),
    ensures
        splice_from(t, seq![it], 0) == t.take(it.start) + r + t.skip(it.end),
{
    assert(seq![it].drop_first() =~= Seq::<SpliceItemView>::empty());
    assert(splice_from(t, Seq::<SpliceItemView>::empty(), it.end) == t.skip(it.end));
    assert(splice_from(t, seq![it], 0) =~= t.take(it.start) + r + t.skip(it.end));
}

/// Splicing emits the text between `prev` and `mid` unchanged when every
/// span starts at or after `mid`.
proof fn lemma_splice_prefix(t: Seq<char>, items: Seq<SpliceItemView>, prev: int, mid: int)
    requires
        wf_items(items, mid, t.len() as int),
        0 <= prev <= mid <= t.len(),
    ensures
        splice_from(t, items, prev) == t.subrange(prev, mid) + splice_from(t, items, mid),
{
    if items.len() == 0 {
        assert(t.skip(prev) =~= t.subrange(prev, mid) + t.skip(mid));
    } else {
        assert(t.subrange(prev, items[0].start) =~= t.subrange(prev, mid) + t.subrange(
            mid,
            items[0].start,
        ));
        assert(splice_from(t, items, prev) =~= t.subrange(prev, mid) + splice_from(t, items, mid));
    }
}

/// A span whose resolution failed contributes exactly the original text of
/// that span: the spliced text is the same as if the span had never been
/// matched at all, so the failed token is preserved byte for byte in its
/// region.
pub proof fn lemma_failed_token_preserved(
    t: Seq<char>,
    items: Seq<SpliceItemView>,
    k: int,
    prev: int,
)
    requires
        wf_items(items, prev, t.len() as int),
        0 <= prev <= t.len(),
        0 <= k < items.len(),
        items[k].replacement is None,
    ensures
        splice_from(t, items, prev) == splice_from(t, items.remove(k), prev),
    decreases k,
{
    let rest = items.drop_first();
    if k == 0 {
        assert(items.remove(0) =~= rest);
        lemma_splice_prefix(t, rest, prev, items[0].end);
        assert(t.subrange(prev, items[0].start) + t.subrange(items[0].start, items[0].end)
            =~= t.subrange(prev, items[0].end));
        assert(splice_from(t, items, prev) =~= splice_from(t, rest, prev));
    } else {
        assert(items.remove(k)[0] == items[0]);
        assert(items.remove(k).drop_first() =~= rest.remove(k - 1));
        assert(rest[k - 1] == items[k]);
        lemma_failed_token_preserved(t, rest, k - 1, items[0].end);
    }
}

/// Splicing spans that all failed to resolve re-emits the text from `prev`
/// on, unchanged.
proof fn lemma_all_failed_from(t: Seq<char>, items: Seq<SpliceItemView>, prev: int)
    requires
        wf_items(items, prev, t.len() as int),
        0 <= prev <= t.len(),
        forall|k: int| 0 <= k < items.len() ==> (#[trigger] items[k]).replacement is None,
    ensures
        splice_from(t, items, prev) == t.skip(prev),
    decreases items.len(),
{
    if items.len() > 0 {
        assert(items.drop_first()[0] == items[1] || items.len() == 1);
        assert forall|k: int| 0 <= k < items.drop_first().len() implies (#[trigger] items.drop_first()[k]).replacement is None by {
            assert(items.drop_first()[k] == items[k + 1]);
        }
        lemma_all_failed_from(t, items.drop_first(), items[0].end);
        assert(splice_from(t, items, prev) =~= t.skip(prev));
    }
}

/// When every token's resolution failed, the spliced text is the whole
/// original text, unchanged.
pub proof fn lemma_all_failed_preserves_text(t: Seq<char>, items: Seq<SpliceItemView>)
    requires
        wf_items(items, 0, t.len() as int),
        forall|k: int| 0 <= k < items.len() ==> (#[trigger] items[k]).replacement is None,
    ensures
        splice_from(t, items, 0) == t,
{
    lemma_all_failed_from(t, items, 0);
    assert(t.skip(0) =~= t);
}

} // verus!
