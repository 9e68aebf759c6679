//! Visual lines: the rows a logical line occupies on screen when long lines
//! are wrapped at a fixed number of columns.

use vstd::prelude::*;

use crate::buffer::TextBuffer;

verus! {

/// One screen row: the columns `start_col..end_col` of a logical line.
#[derive(Clone, Copy, PartialEq, Eq, Debug)]
pub struct VisualLine {
    pub logical_line: usize,
    pub start_col: usize,
    pub end_col: usize,
}

impl VisualLine {
    /// The row starts its logical line.
    pub fn is_first_segment(&self) -> (res: bool)
        ensures
            res == (self.start_col == 0),
    {
        self.start_col == 0
    }

    /// The number of columns on the row.
    pub fn len(&self) -> (res: usize)
        requires
            self.start_col <= self.end_col,
        ensures
            res == self.end_col - self.start_col,
    {
        self.end_col - self.start_col
    }
}

/// The rows of line `l` from column `from` on, for a line of `n` columns
/// wrapped every `w` columns.
pub open spec fn segments(l: int, from: int, n: int, w: int) -> Seq<(int, int, int)>
    decreases n - from,
{
    if w <= 0 || n - from <= w {
        seq![(l, from, n)]
    } else {
        seq![(l, from, from + w)] + segments(l, from + w, n, w)
    }
}

/// The rows of line `l` of length `n`; `None` means no wrapping.
pub open spec fn line_rows(l: int, n: int, width: Option<int>) -> Seq<(int, int, int)> {
    match width {
        Some(w) => segments(l, 0, n, w),
        None => seq![(l, 0, n)],
    }
}

/// The rows of the first `k` lines.
pub open spec fn rows_of(lines: Seq<Seq<char>>, k: int, width: Option<int>) -> Seq<
    (int, int, int),
>
    decreases k,
{
    if k <= 0 {
        Seq::empty()
    } else {
        rows_of(lines, k - 1, width) + line_rows(k - 1, lines[k - 1].len() as int, width)
    }
}

/// The rows of the whole document.
pub open spec fn visual_rows(lines: Seq<Seq<char>>, width: Option<int>) -> Seq<(int, int, int)> {
    rows_of(lines, lines.len() as int, width)
}

/// A row as a triple.
pub open spec fn row_of(v: VisualLine) -> (int, int, int) {
    (v.logical_line as int, v.start_col as int, v.end_col as int)
}

/// The rows of a vector of visual lines.
pub open spec fn rows_view(v: Seq<VisualLine>) -> Seq<(int, int, int)> {
    Seq::new(v.len(), |i: int| row_of(v[i]))
}

/// Row `i` holds the place `(line, col)`: the column lies in the row, or at
/// its end when the row is the last one of its line.
pub open spec fn row_holds(rows: Seq<(int, int, int)>, i: int, line: int, col: int) -> bool {
    &&& 0 <= i < rows.len()
    &&& rows[i].0 == line
    &&& rows[i].1 <= col
    &&& (col < rows[i].2 || (col == rows[i].2 && (i + 1 == rows.len() || rows[i + 1].0 != line)))
}

/// The first row holding `(line, col)`, if any.
pub open spec fn row_of_pos(rows: Seq<(int, int, int)>, line: int, col: int) -> Option<int> {
    if exists|i: int| row_holds(rows, i, line, col) {
        Some(
            choose|i: int|
                row_holds(rows, i, line, col) && forall|j: int|
                    0 <= j < i ==> !row_holds(rows, j, line, col),
        )
    } else {
        None
    }
}

proof fn lemma_first_holds(rows: Seq<(int, int, int)>, line: int, col: int, i: int)
    requires
        row_holds(rows, i, line, col),
        forall|j: int| 0 <= j < i ==> !row_holds(rows, j, line, col),
    ensures
        row_of_pos(rows, line, col) == Some(i),
{
    let k = choose|k: int|
        row_holds(rows, k, line, col) && forall|j: int| 0 <= j < k ==> !row_holds(rows, j, line, col);
    assert(row_holds(rows, k, line, col) && forall|j: int| 0 <= j < k ==> !row_holds(rows, j, line, col));
    if k < i {
        assert(!row_holds(rows, k, line, col));
    }
    if i < k {
        assert(!row_holds(rows, i, line, col));
    }
}

proof fn lemma_rows_view_push(v: Seq<VisualLine>, x: VisualLine)
    ensures
        rows_view(v.push(x)) == rows_view(v).push(row_of(x)),
{
    assert(rows_view(v.push(x)) =~= rows_view(v).push(row_of(x)));
}

/// Appends the rows of line `l` (of `n` columns) from column `from` on.
fn push_segments(out: &mut Vec<VisualLine>, l: usize, from: usize, n: usize, w: usize)
    requires
        from <= n,
        w >= 1,
    ensures
        rows_view(final(out)@) == rows_view(old(out)@) + segments(l as int, from as int, n as int, w as int),
    decreases n - from,
{
    if n - from <= w {
        let ghost before = out@;
        out.push(VisualLine { logical_line: l, start_col: from, end_col: n });
        proof {
            lemma_rows_view_push(before, VisualLine { logical_line: l, start_col: from, end_col: n });
            assert(rows_view(out@) =~= rows_view(before) + segments(l as int, from as int, n as int, w as int));
        }
    } else {
        let ghost before = out@;
        let seg = VisualLine { logical_line: l, start_col: from, end_col: from + w };
        out.push(seg);
        proof {
            lemma_rows_view_push(before, seg);
        }
        push_segments(out, l, from + w, n, w);
        proof {
            assert(rows_view(out@) =~= rows_view(before) + segments(l as int, from as int, n as int, w as int));
        }
    }
}

/// The rows of the whole buffer; `width` is the wrap width in columns, or
/// `None` for no wrapping.
pub fn calculate_visual_lines(buffer: &TextBuffer, width: Option<usize>) -> (res: Vec<VisualLine>)
    requires
        buffer.wf(),
        width matches Some(w) ==> w >= 1,
    ensures
        rows_view(res@) == visual_rows(buffer@, opt_int(width)),
{
    let n = buffer.line_count();
    let mut out: Vec<VisualLine> = Vec::new();
    let mut i: usize = 0;
    proof {
        assert(rows_view(out@) =~= rows_of(buffer@, 0, opt_int(width)));
    }
    while i < n
        invariant
            n == buffer@.len(),
            i <= n,
            width matches Some(w) ==> w >= 1,
            rows_view(out@) == rows_of(buffer@, i as int, opt_int(width)),
        decreases n - i,
    {
        let len = buffer.line_len(i);
        match width {
            Some(w) => {
                push_segments(&mut out, i, 0, len, w);
            },
            None => {
                let ghost before = out@;
                out.push(VisualLine { logical_line: i, start_col: 0, end_col: len });
                proof {
                    lemma_rows_view_push(before, VisualLine { logical_line: i, start_col: 0, end_col: len });
                }
            },
        }
        proof {
            assert(rows_view(out@) =~= rows_of(buffer@, i + 1, opt_int(width)));
        }
        i = i + 1;
    }
    out
}

/// A machine width as a mathematical one.
pub open spec fn opt_int(w: Option<usize>) -> Option<int> {
    match w {
        Some(x) => Some(x as int),
        None => None,
    }
}

/// The first row holding `(line, col)`, if any.
pub fn logical_to_visual(rows: &Vec<VisualLine>, line: usize, col: usize) -> (res: Option<usize>)
    ensures
        match res {
            Some(i) => row_of_pos(rows_view(rows@), line as int, col as int) == Some(i as int)
                && row_holds(rows_view(rows@), i as int, line as int, col as int),
            None => row_of_pos(rows_view(rows@), line as int, col as int) is None,
        },
{
    let ghost rv = rows_view(rows@);
    let n = rows.len();
    let mut i: usize = 0;
    while i < n
        invariant
            n == rows@.len(),
            rv == rows_view(rows@),
            i <= n,
            forall|j: int| 0 <= j < i ==> !row_holds(rv, j, line as int, col as int),
        decreases n - i,
    {
        let r = rows[i];
        let last_of_line = i + 1 == n || rows[i + 1].logical_line != line;
        if r.logical_line == line && r.start_col <= col && (col < r.end_col || (col == r.end_col
            && last_of_line)) {
            proof {
                assert(rv[i as int] == row_of(r));
                if i + 1 < n {
                    assert(rv[i + 1] == row_of(rows@[i + 1]));
                }
                assert(row_holds(rv, i as int, line as int, col as int));
                lemma_first_holds(rv, line as int, col as int, i as int);
            }
            return Some(i);
        }
        proof {
            assert(rv[i as int] == row_of(r));
            if i + 1 < n {
                assert(rv[i + 1] == row_of(rows@[i + 1]));
            }
        }
        i = i + 1;
    }
    None
}


/// A row lies within its line.
pub open spec fn row_in(lines: Seq<Seq<char>>, r: (int, int, int)) -> bool {
    &&& 0 <= r.0 < lines.len()
    &&& 0 <= r.1 <= r.2 <= lines[r.0].len()
}

proof fn lemma_segments_in(lines: Seq<Seq<char>>, l: int, from: int, n: int, w: int)
    requires
        0 <= l < lines.len(),
        n == lines[l].len(),
        0 <= from <= n,
    ensures
        forall|i: int| 0 <= i < segments(l, from, n, w).len() ==> row_in(lines, #[trigger] segments(l, from, n, w)[i]),
        segments(l, from, n, w).len() >= 1,
    decreases n - from,
{
    if !(w <= 0 || n - from <= w) {
        lemma_segments_in(lines, l, from + w, n, w);
        let rest = segments(l, from + w, n, w);
        let all = segments(l, from, n, w);
        assert forall|i: int| 0 <= i < all.len() implies row_in(lines, #[trigger] all[i]) by {
            if i > 0 {
                assert(all[i] == rest[i - 1]);
            }
        }
    }
}

proof fn lemma_rows_of_in(lines: Seq<Seq<char>>, k: int, width: Option<int>)
    requires
        0 <= k <= lines.len(),
    ensures
        forall|i: int| 0 <= i < rows_of(lines, k, width).len() ==> row_in(lines, #[trigger] rows_of(lines, k, width)[i]),
        rows_of(lines, k, width).len() >= k,
    decreases k,
{
    if k > 0 {
        lemma_rows_of_in(lines, k - 1, width);
        let prev = rows_of(lines, k - 1, width);
        let last = line_rows(k - 1, lines[k - 1].len() as int, width);
        match width {
            Some(w) => lemma_segments_in(lines, k - 1, 0, lines[k - 1].len() as int, w),
            None => {},
        }
        let all = rows_of(lines, k, width);
        assert(all == prev + last);
        assert forall|i: int| 0 <= i < all.len() implies row_in(lines, #[trigger] all[i]) by {
            if i < prev.len() {
                assert(all[i] == prev[i]);
            } else {
                assert(all[i] == last[i - prev.len()]);
            }
        }
    }
}

/// Every row lies within its line, and there is at least one row per line.
pub proof fn lemma_rows_in(lines: Seq<Seq<char>>, width: Option<int>)
    ensures
        forall|i: int| 0 <= i < visual_rows(lines, width).len() ==> row_in(lines, #[trigger] visual_rows(lines, width)[i]),
        visual_rows(lines, width).len() >= lines.len(),
{
    lemma_rows_of_in(lines, lines.len() as int, width);
}

/// Without wrapping every line is one row, holding the whole line.
pub proof fn lemma_rows_unwrapped(lines: Seq<Seq<char>>, k: int)
    requires
        0 <= k <= lines.len(),
    ensures
        rows_of(lines, k, None).len() == k,
        forall|i: int| 0 <= i < k ==> #[trigger] rows_of(lines, k, None)[i] == (i, 0int, lines[i].len() as int),
    decreases k,
{
    if k > 0 {
        lemma_rows_unwrapped(lines, k - 1);
        let a = rows_of(lines, k - 1, None);
        let b = line_rows(k - 1, lines[k - 1].len() as int, None);
        assert forall|i: int| 0 <= i < k implies #[trigger] rows_of(lines, k, None)[i] == (
            i,
            0int,
            lines[i].len() as int,
        ) by {
            if i < k - 1 {
                assert((a + b)[i] == a[i]);
            } else {
                assert((a + b)[i] == b[0]);
            }
        }
    }
}

/// Without wrapping, the row holding a place of line `l` is row `l`.
pub proof fn lemma_row_of_pos_unwrapped(lines: Seq<Seq<char>>, l: int, c: int)
    requires
        0 <= l < lines.len(),
        0 <= c <= lines[l].len(),
    ensures
        row_of_pos(visual_rows(lines, None), l, c) == Some(l),
        visual_rows(lines, None).len() == lines.len(),
        forall|i: int| 0 <= i < lines.len() ==> #[trigger] visual_rows(lines, None)[i] == (i, 0int, lines[i].len() as int),
{
    let rows = visual_rows(lines, None);
    lemma_rows_unwrapped(lines, lines.len() as int);
    assert(rows[l] == (l, 0int, lines[l].len() as int));
    if l + 1 < rows.len() {
        assert(rows[l + 1] == (l + 1, 0int, lines[l + 1].len() as int));
    }
    assert(row_holds(rows, l, l, c));
    assert forall|j: int| 0 <= j < l implies !row_holds(rows, j, l, c) by {
        assert(rows[j] == (j, 0int, lines[j].len() as int));
    }
    lemma_first_holds(rows, l, c, l);
}

} // verus!
