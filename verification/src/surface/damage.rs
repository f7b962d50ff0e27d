//! Row damage tracking: each row keeps a sorted list of disjoint, non-adjacent spans.
use vstd::prelude::*;

verus! {

/// A half-open span `[start, end)` of damaged columns.
#[derive(Debug, Clone, Copy, PartialEq, Eq, Structural)]
pub struct Span {
    /// Start of the span.
    pub start: usize,
    /// End of the span (exclusive).
    pub end: usize,
}

impl Span {
    /// Creates a new span where end is exclusive; empty spans are refused.
    pub fn new(start: usize, end: usize) -> (r: Option<Self>)
        ensures
            r == (if start < end {
                Some(Span { start, end })
            } else {
                None
            }),
    {
        if start < end {
            Some(Span { start, end })
        } else {
            None
        }
    }
}

/// Column `x` lies in one of the spans of `s`.
pub open spec fn covered(s: Seq<Span>, x: int) -> bool {
    exists|i: int| 0 <= i < s.len() && (#[trigger] s[i]).start <= x < s[i].end
}

/// The spans are non-empty, sorted, and separated by at least one clean column.
pub open spec fn spans_wf(s: Seq<Span>) -> bool {
    &&& forall|i: int| 0 <= i < s.len() ==> (#[trigger] s[i]).start < s[i].end
    &&& forall|i: int, j: int| 0 <= i < j < s.len() ==> (#[trigger] s[i]).end < (#[trigger] s[j]).start
}

/// Coverage of a concatenation is the union of the coverages.
pub proof fn lemma_covered_concat(a: Seq<Span>, b: Seq<Span>, x: int)
    ensures
        covered(a + b, x) <==> covered(a, x) || covered(b, x),
{
    if covered(a + b, x) {
        let i = choose|i: int| 0 <= i < (a + b).len() && (#[trigger] (a + b)[i]).start <= x < (a
            + b)[i].end;
        if i < a.len() {
            assert(a[i] == (a + b)[i]);
        } else {
            assert(b[i - a.len()] == (a + b)[i]);
        }
    }
    if covered(a, x) {
        let i = choose|i: int| 0 <= i < a.len() && (#[trigger] a[i]).start <= x < a[i].end;
        assert((a + b)[i] == a[i]);
    }
    if covered(b, x) {
        let i = choose|i: int| 0 <= i < b.len() && (#[trigger] b[i]).start <= x < b[i].end;
        assert((a + b)[a.len() + i] == b[i]);
    }
}

/// Coverage of a single span.
pub proof fn lemma_covered_single(s: Span, x: int)
    ensures
        covered(seq![s], x) <==> s.start <= x < s.end,
{
    if s.start <= x < s.end {
        assert(seq![s][0] == s);
    }
}

/// Coverage of the empty sequence.
pub proof fn lemma_covered_empty(x: int)
    ensures
        !covered(Seq::<Span>::empty(), x),
{
}

/// While merging `new` into `orig`, the untouched prefix `orig[..i]`, the span being grown
/// and the untouched suffix `orig[j..]` together cover exactly what `orig` and `new` cover.
pub open spec fn merge_keeps(orig: Seq<Span>, i: int, j: int, ns: Span, new: Span, c: int) -> bool {
    (covered(orig.take(i), c) || (ns.start <= c < ns.end) || covered(orig.skip(j), c)) <==> (
    covered(orig, c) || new.start <= c < new.end)
}

/// Damage of one row.
#[derive(Debug, Clone)]
pub enum DamagedRow {
    /// No damage.
    Clean,
    /// A single damaged span.
    One(Span),
    /// Two or more damaged spans.
    Many(Vec<Span>),
}

impl Default for DamagedRow {
    fn default() -> (r: Self)
        ensures
            r.wf(),
            r.spans_view() == Seq::<Span>::empty(),
    {
        DamagedRow::Clean
    }
}

impl DamagedRow {
    /// The damaged spans of the row, left to right.
    pub open spec fn spans_view(&self) -> Seq<Span> {
        match self {
            DamagedRow::Clean => Seq::empty(),
            DamagedRow::One(s) => seq![*s],
            DamagedRow::Many(v) => v@,
        }
    }

    /// Column `x` is damaged in this row.
    pub open spec fn is_marked(&self, x: int) -> bool {
        covered(self.spans_view(), x)
    }

    /// The spans are in normal form, and the variant matches their number.
    pub open spec fn wf(&self) -> bool {
        &&& spans_wf(self.spans_view())
        &&& (self matches DamagedRow::Many(v) ==> v@.len() >= 2)
    }

    /// Returns `true` if the row contains any damaged span.
    pub fn is_damaged(&self) -> (b: bool)
        requires
            self.wf(),
        ensures
            b == (self.spans_view().len() > 0),
    {
        match self {
            DamagedRow::Clean => {
                false
            },
            DamagedRow::One(_) => true,
            DamagedRow::Many(_) => true,
        }
    }

    /// Returns the spans for this row.
    pub fn spans(&self) -> (v: Vec<Span>)
        ensures
            v@ == self.spans_view(),
    {
        match self {
            DamagedRow::Clean => Vec::new(),
            DamagedRow::One(s) => {
                let mut v = Vec::new();
                v.push(*s);
                assert(v@ =~= seq![*s]);
                v
            },
            DamagedRow::Many(spans) => spans.clone(),
        }
    }

    /// Clears all damage from this row.
    pub fn clear(&mut self)
        ensures
            final(self).wf(),
            final(self).spans_view() == Seq::<Span>::empty(),
    {
        *self = DamagedRow::Clean;
    }

    /// Marks a single cell as damaged.
    pub fn mark(&mut self, x: usize)
        requires
            old(self).wf(),
            x < usize::MAX,
        ensures
            final(self).wf(),
            forall|c: int| #[trigger]
                final(self).is_marked(c) <==> old(self).is_marked(c) || c == x,
    {
        self.mark_range(x, x + 1);
    }

    /// Marks a span as damaged, where `end` is exclusive; an empty span changes nothing.
    pub fn mark_range(&mut self, start: usize, end: usize)
        requires
            old(self).wf(),
        ensures
            final(self).wf(),
            start >= end ==> *final(self) == *old(self),
            forall|c: int| #[trigger]
                final(self).is_marked(c) <==> old(self).is_marked(c) || start <= c < end,
    {
        let new_span = match Span::new(start, end) {
            Some(s) => s,
            None => {
                return;
            },
        };
        let ghost old_spans = self.spans_view();
        match self {
            DamagedRow::Clean => {
                *self = DamagedRow::One(new_span);
                proof {
                    assert forall|c: int| #[trigger]
                        self.is_marked(c) <==> covered(old_spans, c) || start <= c < end by {
                        lemma_covered_single(new_span, c);
                    }
                }
            },
            DamagedRow::One(existing) => {
                let ex = *existing;
                if new_span.end < ex.start {
                    let mut v = Vec::new();
                    v.push(new_span);
                    v.push(ex);
                    *self = DamagedRow::Many(v);
                    proof {
                        assert(v@ =~= seq![new_span] + seq![ex]);
                        assert forall|c: int| #[trigger]
                            self.is_marked(c) <==> covered(old_spans, c) || start <= c < end by {
                            lemma_covered_concat(seq![new_span], seq![ex], c);
                            lemma_covered_single(new_span, c);
                            lemma_covered_single(ex, c);
                        }
                    }
                    return;
                }
                if new_span.start > ex.end {
                    let mut v = Vec::new();
                    v.push(ex);
                    v.push(new_span);
                    *self = DamagedRow::Many(v);
                    proof {
                        assert(v@ =~= seq![ex] + seq![new_span]);
                        assert forall|c: int| #[trigger]
                            self.is_marked(c) <==> covered(old_spans, c) || start <= c < end by {
                            lemma_covered_concat(seq![ex], seq![new_span], c);
                            lemma_covered_single(new_span, c);
                            lemma_covered_single(ex, c);
                        }
                    }
                    return;
                }
                let merged = Span {
                    start: if ex.start <= new_span.start {
                        ex.start
                    } else {
                        new_span.start
                    },
                    end: if ex.end >= new_span.end {
                        ex.end
                    } else {
                        new_span.end
                    },
                };
                *self = DamagedRow::One(merged);
                proof {
                    assert forall|c: int| #[trigger]
                        self.is_marked(c) <==> covered(old_spans, c) || start <= c < end by {
                        lemma_covered_single(merged, c);
                        lemma_covered_single(ex, c);
                    }
                }
            },
            DamagedRow::Many(spans) => {
                Self::insert_merged(spans, new_span);
                let n = spans.len();
                if n == 1 {
                    let only = spans[0];
                    proof {
                        assert(spans@ =~= seq![only]);
                    }
                    *self = DamagedRow::One(only);
                }
            },
        }
    }

    /// Inserts `new_span` into `spans`, keeping them sorted and merged.
    fn insert_merged(spans: &mut Vec<Span>, new_span: Span)
        requires
            spans_wf(old(spans)@),
            new_span.start < new_span.end,
        ensures
            spans_wf(final(spans)@),
            final(spans)@.len() >= 1,
            forall|c: int| #[trigger]
                covered(final(spans)@, c) <==> covered(old(spans)@, c) || new_span.start <= c
                    < new_span.end,
    {
        let ghost orig = spans@;
        let ghost mut j: int = 0;
        let mut ns = new_span;
        let mut i: usize = 0;
        proof {
            assert forall|c: int| #[trigger] merge_keeps(orig, 0, 0, ns, new_span, c) by {
                assert(orig.take(0) =~= Seq::<Span>::empty());
                assert(orig.skip(0) =~= orig);
                lemma_covered_empty(c);
            }
        }
        while i < spans.len()
            invariant
                orig == old(spans)@,
                spans_wf(orig),
                0 <= i <= j <= orig.len(),
                spans@ == orig.take(i as int) + orig.skip(j),
                ns.start < ns.end,
                forall|k: int| 0 <= k < i ==> (#[trigger] orig[k]).end < ns.start,
                i < j ==> forall|m: int| j <= m < orig.len() ==> ns.start < (#[trigger] orig[m]).start,
                forall|c: int| #[trigger] merge_keeps(orig, i as int, j, ns, new_span, c),
            decreases spans@.len() - i,
        {
            let cur = spans[i];
            let ghost ns0 = ns;
            let ghost j0 = j;
            proof {
                assert(cur == orig[j]);
            }
            if ns.end < cur.start {
                spans.insert(i, ns);
                proof {
                    let res = orig.take(i as int) + seq![ns] + orig.skip(j);
                    assert(spans@ =~= res);
                    assert forall|a: int, b: int| 0 <= a < b < res.len() implies (#[trigger] res[a]).end
                        < (#[trigger] res[b]).start by {
                        if b < i {
                            assert(res[a] == orig[a] && res[b] == orig[b]);
                        } else if b == i {
                            assert(res[a] == orig[a]);
                        } else if a == i {
                            assert(res[b] == orig[b - i - 1 + j]);
                            if b - i - 1 + j > j {
                                assert(orig[j].end < orig[b - i - 1 + j].start);
                            }
                        } else if a < i {
                            assert(res[a] == orig[a] && res[b] == orig[b - i - 1 + j]);
                        } else {
                            assert(res[a] == orig[a - i - 1 + j] && res[b] == orig[b - i - 1 + j]);
                        }
                    }
                    assert forall|c: int| #[trigger]
                        covered(spans@, c) <==> covered(orig, c) || new_span.start <= c
                            < new_span.end by {
                        lemma_covered_concat(orig.take(i as int) + seq![ns], orig.skip(j), c);
                        lemma_covered_concat(orig.take(i as int), seq![ns], c);
                        lemma_covered_single(ns, c);
                        assert(merge_keeps(orig, i as int, j, ns, new_span, c));
                    }
                    assert(orig == old(spans)@);
                    assert(spans@.len() >= 1);
                }
                return;
            }
            if ns.start > cur.end {
                proof {
                    assert(i == j);
                    assert(orig.take(i + 1) =~= orig.take(i as int) + seq![cur]);
                    assert(orig.skip(j) =~= seq![cur] + orig.skip(j + 1));
                    assert(orig.take(i + 1) + orig.skip(j + 1) =~= orig.take(i as int) + orig.skip(j));
                    assert forall|c: int| #[trigger] merge_keeps(orig, i + 1, j + 1, ns, new_span, c) by {
                        lemma_covered_concat(orig.take(i as int), seq![cur], c);
                        lemma_covered_concat(seq![cur], orig.skip(j + 1), c);
                        assert(merge_keeps(orig, i as int, j0, ns0, new_span, c));
                    }
                    j = j + 1;
                }
                i += 1;
                continue;
            }
            let merged = Span {
                start: if ns.start <= cur.start {
                    ns.start
                } else {
                    cur.start
                },
                end: if ns.end >= cur.end {
                    ns.end
                } else {
                    cur.end
                },
            };
            spans.remove(i);
            proof {
                assert(orig.skip(j) =~= seq![cur] + orig.skip(j + 1));
                assert(spans@ =~= orig.take(i as int) + orig.skip(j + 1));
                assert forall|c: int| #[trigger] merge_keeps(orig, i as int, j + 1, merged, new_span, c) by {
                    lemma_covered_concat(seq![cur], orig.skip(j + 1), c);
                    lemma_covered_single(cur, c);
                    assert(merge_keeps(orig, i as int, j0, ns0, new_span, c));
                }
                assert forall|k: int| 0 <= k < i implies (#[trigger] orig[k]).end < merged.start by {
                    assert(orig[k].end < orig[j].start);
                }
                j = j + 1;
            }
            ns = merged;
        }
        proof {
            assert(j == orig.len());
            assert(orig.skip(j) =~= Seq::<Span>::empty());
        }
        spans.push(ns);
        proof {
            let res = orig.take(i as int) + seq![ns];
            assert(spans@ =~= res);
            assert forall|a: int, b: int| 0 <= a < b < res.len() implies (#[trigger] res[a]).end
                < (#[trigger] res[b]).start by {
                if b < i {
                    assert(res[a] == orig[a] && res[b] == orig[b]);
                } else {
                    assert(res[a] == orig[a]);
                }
            }
            assert forall|c: int| #[trigger]
                covered(spans@, c) <==> covered(orig, c) || new_span.start <= c < new_span.end by {
                lemma_covered_concat(orig.take(i as int), seq![ns], c);
                lemma_covered_single(ns, c);
                lemma_covered_empty(c);
                assert(merge_keeps(orig, i as int, j, ns, new_span, c));
            }
        }
    }
}

/// Every row of a damage buffer is in normal form.
pub open spec fn rows_wf(rows: Seq<DamagedRow>) -> bool {
    forall|y: int| 0 <= y < rows.len() ==> (#[trigger] rows[y]).wf()
}

/// Column `x` of row `y` is damaged in the buffer.
pub open spec fn row_marked(rows: Seq<DamagedRow>, x: int, y: int) -> bool {
    0 <= y < rows.len() && rows[y].is_marked(x)
}

/// Marks `[x0, x1)` of row `y` in a damage buffer.
pub fn mark_row_range(rows: &mut Vec<DamagedRow>, y: usize, x0: usize, x1: usize)
    requires
        rows_wf(old(rows)@),
        y < old(rows)@.len(),
    ensures
        rows_wf(final(rows)@),
        final(rows)@.len() == old(rows)@.len(),
        forall|x: int, yy: int| #[trigger]
            row_marked(final(rows)@, x, yy) <==> row_marked(old(rows)@, x, yy) || (yy == y && x0
                <= x < x1),
{
    let mut row = DamagedRow::Clean;
    rows.set_and_swap(y, &mut row);
    row.mark_range(x0, x1);
    rows.set(y, row);
    proof {
        assert forall|x: int, yy: int| #[trigger]
            row_marked(rows@, x, yy) <==> row_marked(old(rows)@, x, yy) || (yy == y && x0 <= x
                < x1) by {
            if yy != y && 0 <= yy < rows@.len() {
                assert(rows@[yy] == old(rows)@[yy]);
            }
        }
    }
}

/// Removes all damage from a damage buffer.
pub fn clear_rows(rows: &mut Vec<DamagedRow>)
    ensures
        rows_wf(final(rows)@),
        final(rows)@.len() == old(rows)@.len(),
        forall|x: int, y: int| !(#[trigger] row_marked(final(rows)@, x, y)),
{
    let mut i: usize = 0;
    while i < rows.len()
        invariant
            rows@.len() == old(rows)@.len(),
            i <= rows@.len(),
            forall|y: int| 0 <= y < i ==> (#[trigger] rows@[y]).spans_view().len() == 0 && rows@[y].wf(),
        decreases rows@.len() - i,
    {
        rows.set(i, DamagedRow::Clean);
        i += 1;
    }
    proof {
        assert forall|x: int, y: int| !(#[trigger] row_marked(rows@, x, y)) by {
            if 0 <= y < rows@.len() {
                assert(rows@[y].spans_view().len() == 0);
            }
        }
    }
}

/// A damage buffer of `n` clean rows.
pub fn clean_rows(n: usize) -> (rows: Vec<DamagedRow>)
    ensures
        rows@.len() == n,
        rows_wf(rows@),
        forall|x: int, y: int| !(#[trigger] row_marked(rows@, x, y)),
{
    let mut rows: Vec<DamagedRow> = Vec::new();
    let mut i: usize = 0;
    while i < n
        invariant
            rows@.len() == i,
            i <= n,
            forall|y: int| 0 <= y < i ==> (#[trigger] rows@[y]).spans_view().len() == 0 && rows@[y].wf(),
        decreases n - i,
    {
        rows.push(DamagedRow::Clean);
        i += 1;
    }
    proof {
        assert forall|x: int, y: int| !(#[trigger] row_marked(rows@, x, y)) by {
            if 0 <= y < rows@.len() {
                assert(rows@[y].spans_view().len() == 0);
            }
        }
    }
    rows
}

} // verus!
