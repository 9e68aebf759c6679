//! Finding a query in the lines of a document: where it occurs, with or
//! without regard to case, and how the search dialog steps through the
//! places found.

use vstd::prelude::*;

use crate::buffer::TextBuffer;
use crate::chars::{chars_of, string_from_chars};
use crate::editor::{
    cleared, edited, group_ended, group_started, pos_int, CodeEditor, EditorModel, Effects, Message,
};
use crate::lines::{
    lemma_lines_of_len, lemma_lines_of_plain, lemma_lines_of_push, lines_of, no_newline, pos_le,
    replace_lines, valid_lines, valid_pos,
};
use crate::textutil::{lowercase, str_eq, to_lowercase};

verus! {

/// Two characters match: equal, or, ignoring case, equal once lower-cased.
pub open spec fn char_match(a: char, b: char, case_sensitive: bool) -> bool {
    if case_sensitive {
        a == b
    } else {
        lowercase(seq![a]) == lowercase(seq![b])
    }
}

/// The query occurs in `line` from column `c` on.
pub open spec fn occurs_at(line: Seq<char>, q: Seq<char>, c: int, case_sensitive: bool) -> bool {
    &&& 0 <= c
    &&& c + q.len() <= line.len()
    &&& forall|k: int| 0 <= k < q.len() ==> #[trigger] char_match(line[c + k], q[k], case_sensitive)
}

/// The columns where the query occurs in `line`, from column `from` on,
/// scanning left to right and going on after the end of each occurrence
/// (occurrences do not overlap).  An empty query occurs nowhere.
pub open spec fn line_matches(line: Seq<char>, q: Seq<char>, case_sensitive: bool, from: int) -> Seq<int>
    decreases line.len() - from,
{
    if q.len() == 0 || from < 0 || from + q.len() > line.len() {
        Seq::empty()
    } else if occurs_at(line, q, from, case_sensitive) {
        seq![from] + line_matches(line, q, case_sensitive, from + q.len())
    } else {
        line_matches(line, q, case_sensitive, from + 1)
    }
}

/// The places (line, column) where the query occurs in the first `n` lines,
/// line by line.
pub open spec fn matches_upto(lines: Seq<Seq<char>>, q: Seq<char>, case_sensitive: bool, n: int) -> Seq<
    (int, int),
>
    decreases n,
{
    if n <= 0 {
        Seq::empty()
    } else {
        matches_upto(lines, q, case_sensitive, n - 1) + line_matches(lines[n - 1], q, case_sensitive, 0).map_values(
            |c: int| (n - 1, c),
        )
    }
}

/// Every place where the query occurs in the document, in document order.
pub open spec fn find_all(lines: Seq<Seq<char>>, q: Seq<char>, case_sensitive: bool) -> Seq<(int, int)> {
    matches_upto(lines, q, case_sensitive, lines.len() as int)
}

/// Places each followed by `len` characters of its line, in document order,
/// each ending at or before the next one starts.
pub open spec fn spaced(ms: Seq<(int, int)>, len: int, lines: Seq<Seq<char>>) -> bool {
    &&& forall|i: int|
        0 <= i < ms.len() ==> valid_pos(lines, (#[trigger] ms[i]).0, ms[i].1) && valid_pos(
            lines,
            ms[i].0,
            ms[i].1 + len,
        )
    &&& forall|i: int, j: int|
        0 <= i < j < ms.len() ==> pos_le((#[trigger] ms[i]).0, ms[i].1 + len, (#[trigger] ms[j]).0, ms[j].1)
}

/// Machine places as mathematical ones.
pub open spec fn places(v: Seq<(usize, usize)>) -> Seq<(int, int)> {
    v.map_values(|p: (usize, usize)| (p.0 as int, p.1 as int))
}

/// The first place at or after `cur`, looking from index `i` on.
pub open spec fn first_from(ms: Seq<(int, int)>, cur: (int, int), i: int) -> Option<int>
    decreases ms.len() - i,
{
    if i < 0 || i >= ms.len() {
        None
    } else if pos_le(cur.0, cur.1, ms[i].0, ms[i].1) {
        Some(i)
    } else {
        first_from(ms, cur, i + 1)
    }
}

/// The place nearest after the cursor: the first at or after it, else the
/// first of all; none when nothing was found.
pub open spec fn near_index(ms: Seq<(int, int)>, cur: (int, int)) -> Option<int> {
    if ms.len() == 0 {
        None
    } else {
        match first_from(ms, cur, 0) {
            Some(i) => Some(i),
            None => Some(0),
        }
    }
}

/// The index after `i` among `n` places, going round to the first.
pub open spec fn next_index(i: Option<int>, n: int) -> int {
    match i {
        Some(k) => if k + 1 < n {
            k + 1
        } else {
            0
        },
        None => 0,
    }
}

/// The index before `i` among `n` places, going round to the last.
pub open spec fn prev_index(i: Option<int>, n: int) -> int {
    match i {
        Some(k) => if k == 0 || k > n {
            n - 1
        } else {
            k - 1
        },
        None => n - 1,
    }
}

/// The index kept after the places were found again: the same one while
/// it is in range, else the first; none when nothing was found.
pub open spec fn kept_index(i: Option<int>, n: int) -> Option<int> {
    if n == 0 {
        None
    } else {
        match i {
            Some(k) => if 0 <= k < n {
                Some(k)
            } else {
                Some(0)
            },
            None => Some(0),
        }
    }
}

/// The field of the search dialog that has the keyboard.
#[derive(Clone, Copy, PartialEq, Eq, Debug)]
pub enum SearchField {
    Search,
    Replace,
}

/// The search dialog, abstractly.
pub struct SearchModel {
    pub open: bool,
    /// The dialog shows the replace field too.
    pub replace_mode: bool,
    pub query: Seq<char>,
    pub replace_with: Seq<char>,
    pub case_sensitive: bool,
    pub field: SearchField,
    /// The index of the current place among those found.
    pub current: Option<int>,
}

/// The search dialog.
#[derive(Clone, Debug)]
pub struct SearchState {
    pub open: bool,
    pub replace_mode: bool,
    pub query: String,
    pub replace_with: String,
    pub case_sensitive: bool,
    pub field: SearchField,
    pub current: Option<usize>,
}

impl View for SearchState {
    type V = SearchModel;

    open spec fn view(&self) -> SearchModel {
        SearchModel {
            open: self.open,
            replace_mode: self.replace_mode,
            query: self.query@,
            replace_with: self.replace_with@,
            case_sensitive: self.case_sensitive,
            field: self.field,
            current: match self.current {
                Some(i) => Some(i as int),
                None => None,
            },
        }
    }
}

/// The closed dialog with nothing typed, ignoring case.
pub open spec fn closed_search() -> SearchModel {
    SearchModel {
        open: false,
        replace_mode: false,
        query: Seq::empty(),
        replace_with: Seq::empty(),
        case_sensitive: false,
        field: SearchField::Search,
        current: None,
    }
}

impl SearchState {
    /// The closed dialog with nothing typed.
    pub fn new() -> (res: Self)
        ensures
            res@ == closed_search(),
    {
        SearchState {
            open: false,
            replace_mode: false,
            query: String::new(),
            replace_with: String::new(),
            case_sensitive: false,
            field: SearchField::Search,
            current: None,
        }
    }
}

/// The field that Tab (or Shift+Tab) moves to: the other one while the
/// replace field shows, else the search field.
pub open spec fn other_field(s: SearchModel) -> SearchField {
    if s.replace_mode && s.field == SearchField::Search {
        SearchField::Replace
    } else {
        SearchField::Search
    }
}

proof fn lemma_lines_of_first(a: Seq<char>, b: Seq<char>)
    requires
        no_newline(a),
    ensures
        lines_of(a + b).len() >= 1,
        lines_of(a + b)[0].len() >= a.len(),
    decreases b.len(),
{
    lemma_lines_of_len(a + b);
    if b.len() == 0 {
        assert(a + b =~= a);
        lemma_lines_of_plain(a);
    } else {
        let b1 = b.drop_last();
        lemma_lines_of_first(a, b1);
        assert((a + b1).push(b.last()) =~= a + b);
        lemma_lines_of_push(a + b1, b.last());
        lemma_lines_of_len(a + b1);
    }
}

/// Replacing text at or after the end of a place leaves the place, and the
/// `len` characters after it, inside the document.
pub proof fn lemma_replace_keeps_before(
    ls: Seq<Seq<char>>,
    s: (int, int),
    e: (int, int),
    t: Seq<char>,
    p: (int, int),
    len: int,
)
    requires
        valid_lines(ls),
        valid_pos(ls, s.0, s.1),
        valid_pos(ls, e.0, e.1),
        pos_le(s.0, s.1, e.0, e.1),
        valid_pos(ls, p.0, p.1),
        len >= 0,
        valid_pos(ls, p.0, p.1 + len),
        pos_le(p.0, p.1 + len, s.0, s.1),
    ensures
        valid_pos(replace_lines(ls, s.0, s.1, e.0, e.1, t), p.0, p.1),
        valid_pos(replace_lines(ls, s.0, s.1, e.0, e.1, t), p.0, p.1 + len),
{
    let a = ls[s.0].take(s.1);
    let b = t + ls[e.0].skip(e.1);
    assert(no_newline(ls[s.0]));
    assert(no_newline(a));
    lemma_lines_of_first(a, b);
    assert(ls[s.0].take(s.1) + t + ls[e.0].skip(e.1) =~= a + b);
    let nl = replace_lines(ls, s.0, s.1, e.0, e.1, t);
    if p.0 < s.0 {
        assert(nl[p.0] == ls[p.0]);
    } else {
        assert(nl[s.0] == lines_of(a + b)[0]);
    }
}

proof fn lemma_line_matches(line: Seq<char>, q: Seq<char>, cs: bool, from: int)
    requires
        q.len() > 0,
        from >= 0,
    ensures
        ({
            let lm = line_matches(line, q, cs, from);
            &&& forall|i: int| 0 <= i < lm.len() ==> from <= #[trigger] lm[i] && lm[i] + q.len() <= line.len()
            &&& forall|i: int| 0 <= i < lm.len() ==> occurs_at(line, q, #[trigger] lm[i], cs)
            &&& forall|i: int, j: int| 0 <= i < j < lm.len() ==> #[trigger] lm[i] + q.len() <= #[trigger] lm[j]
        }),
    decreases line.len() - from,
{
    if from + q.len() > line.len() {
    } else if occurs_at(line, q, from, cs) {
        lemma_line_matches(line, q, cs, from + q.len());
        let rest = line_matches(line, q, cs, from + q.len());
        let lm = seq![from] + rest;
        assert(line_matches(line, q, cs, from) == lm);
        assert forall|i: int, j: int| 0 <= i < j < lm.len() implies #[trigger] lm[i] + q.len() <= #[trigger] lm[j] by {
            if i > 0 {
                assert(lm[i] == rest[i - 1]);
                assert(lm[j] == rest[j - 1]);
            } else {
                assert(lm[j] == rest[j - 1]);
            }
        }
        assert forall|i: int| 0 <= i < lm.len() implies from <= #[trigger] lm[i] && lm[i] + q.len() <= line.len() by {
            if i > 0 {
                assert(lm[i] == rest[i - 1]);
            }
        }
        assert forall|i: int| 0 <= i < lm.len() implies occurs_at(line, q, #[trigger] lm[i], cs) by {
            if i > 0 {
                assert(lm[i] == rest[i - 1]);
            }
        }
    } else {
        lemma_line_matches(line, q, cs, from + 1);
        assert(line_matches(line, q, cs, from) == line_matches(line, q, cs, from + 1));
    }
}

proof fn lemma_matches_upto(lines: Seq<Seq<char>>, q: Seq<char>, cs: bool, n: int)
    requires
        q.len() > 0,
        0 <= n <= lines.len(),
    ensures
        spaced(matches_upto(lines, q, cs, n), q.len() as int, lines),
        forall|i: int|
            0 <= i < matches_upto(lines, q, cs, n).len() ==> (#[trigger] matches_upto(lines, q, cs, n)[i]).0 < n,
        forall|i: int|
            0 <= i < matches_upto(lines, q, cs, n).len() ==> occurs_at(
                lines[(#[trigger] matches_upto(lines, q, cs, n)[i]).0],
                q,
                matches_upto(lines, q, cs, n)[i].1,
                cs,
            ),
    decreases n,
{
    if n > 0 {
        lemma_matches_upto(lines, q, cs, n - 1);
        lemma_line_matches(lines[n - 1], q, cs, 0);
        let a = matches_upto(lines, q, cs, n - 1);
        let lm = line_matches(lines[n - 1], q, cs, 0);
        let b = lm.map_values(|c: int| (n - 1, c));
        let ms = a + b;
        assert(matches_upto(lines, q, cs, n) == ms);
        let len = q.len() as int;
        assert forall|i: int| 0 <= i < ms.len() implies valid_pos(lines, (#[trigger] ms[i]).0, ms[i].1) && valid_pos(
            lines,
            ms[i].0,
            ms[i].1 + len,
        ) && ms[i].0 < n && occurs_at(lines[ms[i].0], q, ms[i].1, cs) by {
            if i >= a.len() {
                assert(ms[i] == b[i - a.len()]);
                assert(lm[i - a.len()] >= 0);
            } else {
                assert(ms[i] == a[i]);
            }
        }
        assert forall|i: int, j: int| 0 <= i < j < ms.len() implies pos_le(
            (#[trigger] ms[i]).0,
            ms[i].1 + len,
            (#[trigger] ms[j]).0,
            ms[j].1,
        ) by {
            if j < a.len() {
                assert(ms[i] == a[i] && ms[j] == a[j]);
            } else if i < a.len() {
                assert(ms[i] == a[i] && ms[j] == b[j - a.len()]);
                assert(a[i].0 < n - 1);
            } else {
                assert(ms[i] == b[i - a.len()] && ms[j] == b[j - a.len()]);
                assert(lm[i - a.len()] + len <= lm[j - a.len()]);
            }
        }
    }
}

/// The places found are in document order, do not overlap, and the query
/// occurs at each of them.
pub proof fn lemma_find_all(lines: Seq<Seq<char>>, q: Seq<char>, cs: bool)
    requires
        q.len() > 0,
    ensures
        spaced(find_all(lines, q, cs), q.len() as int, lines),
        forall|i: int|
            0 <= i < find_all(lines, q, cs).len() ==> occurs_at(
                lines[(#[trigger] find_all(lines, q, cs)[i]).0],
                q,
                find_all(lines, q, cs)[i].1,
                cs,
            ),
{
    lemma_matches_upto(lines, q, cs, lines.len() as int);
}

/// The lower-case form of a single character.
fn folded(c: char) -> (res: String)
    ensures
        res@ == lowercase(seq![c]),
{
    let mut v: Vec<char> = Vec::new();
    v.push(c);
    proof {
        assert(v@ =~= seq![c]);
    }
    let s = string_from_chars(v.as_slice());
    to_lowercase(s.as_str())
}

/// The lower-case forms of the characters of `q`.
fn folded_all(q: &Vec<char>) -> (res: Vec<String>)
    ensures
        res@.len() == q@.len(),
        forall|k: int| 0 <= k < q@.len() ==> (#[trigger] res@[k])@ == lowercase(seq![q@[k]]),
{
    let mut out: Vec<String> = Vec::new();
    let mut i: usize = 0;
    while i < q.len()
        invariant
            i <= q@.len(),
            out@.len() == i,
            forall|k: int| 0 <= k < i ==> (#[trigger] out@[k])@ == lowercase(seq![q@[k]]),
        decreases q@.len() - i,
    {
        out.push(folded(q[i]));
        i = i + 1;
    }
    out
}

/// Whether the query occurs in `line` from column `c` on; `fq` holds the
/// lower-case forms of the query's characters.
fn occurs_exec(line: &Vec<char>, q: &Vec<char>, fq: &Vec<String>, c: usize, cs: bool) -> (res: bool)
    requires
        c + q@.len() <= line@.len(),
        fq@.len() == q@.len(),
        forall|k: int| 0 <= k < q@.len() ==> (#[trigger] fq@[k])@ == lowercase(seq![q@[k]]),
    ensures
        res == occurs_at(line@, q@, c as int, cs),
{
    let mut k: usize = 0;
    while k < q.len()
        invariant
            k <= q@.len(),
            c + q@.len() <= line@.len(),
            fq@.len() == q@.len(),
            forall|j: int| 0 <= j < q@.len() ==> (#[trigger] fq@[j])@ == lowercase(seq![q@[j]]),
            forall|j: int| 0 <= j < k ==> #[trigger] char_match(line@[c + j], q@[j], cs),
        decreases q@.len() - k,
    {
        let n = line.len();
        assert(c + k < n);
        let a = line[c + k];
        let ok = if cs {
            a == q[k]
        } else {
            let fa = folded(a);
            str_eq(fa.as_str(), fq[k].as_str())
        };
        if !ok {
            assert(!char_match(line@[c + k], q@[k as int], cs));
            return false;
        }
        k = k + 1;
    }
    true
}

/// Appends to `out` the places where the query occurs in line `l`.
fn push_line_matches(
    out: &mut Vec<(usize, usize)>,
    l: usize,
    line: &Vec<char>,
    q: &Vec<char>,
    fq: &Vec<String>,
    cs: bool,
)
    requires
        q@.len() > 0,
        fq@.len() == q@.len(),
        forall|k: int| 0 <= k < q@.len() ==> (#[trigger] fq@[k])@ == lowercase(seq![q@[k]]),
    ensures
        places(final(out)@) == places(old(out)@) + line_matches(line@, q@, cs, 0).map_values(
            |c: int| (l as int, c),
        ),
{
    let ghost start = places(out@);
    let ghost mut acc: Seq<int> = Seq::empty();
    let mut from: usize = 0;
    while from <= line.len() && q.len() <= line.len() - from
        invariant
            q@.len() > 0,
            fq@.len() == q@.len(),
            forall|k: int| 0 <= k < q@.len() ==> (#[trigger] fq@[k])@ == lowercase(seq![q@[k]]),
            from <= line@.len() + 1,
            acc + line_matches(line@, q@, cs, from as int) == line_matches(line@, q@, cs, 0),
            places(out@) == start + acc.map_values(|c: int| (l as int, c)),
        decreases line@.len() + 1 - from,
    {
        if occurs_exec(line, q, fq, from, cs) {
            proof {
                assert(line_matches(line@, q@, cs, from as int) == seq![from as int] + line_matches(
                    line@,
                    q@,
                    cs,
                    from + q@.len(),
                ));
                assert(acc.push(from as int) + line_matches(line@, q@, cs, from + q@.len()) =~= acc
                    + line_matches(line@, q@, cs, from as int));
                assert(places(out@.push((l, from))) =~= places(out@).push((l as int, from as int)));
                assert(acc.push(from as int).map_values(|c: int| (l as int, c)) =~= acc.map_values(
                    |c: int| (l as int, c),
                ).push((l as int, from as int)));
                acc = acc.push(from as int);
            }
            out.push((l, from));
            from = from + q.len();
        } else {
            from = from + 1;
        }
    }
    proof {
        assert(line_matches(line@, q@, cs, from as int) == Seq::<int>::empty());
        assert(acc =~= line_matches(line@, q@, cs, 0));
    }
}

/// Every place where `q` occurs in the lines of `buf`, in document order.
pub fn find_matches(buf: &TextBuffer, q: &Vec<char>, cs: bool) -> (res: Vec<(usize, usize)>)
    ensures
        places(res@) == find_all(buf@, q@, cs),
{
    let mut out: Vec<(usize, usize)> = Vec::new();
    let n = buf.line_count();
    if q.len() == 0 {
        proof {
            lemma_empty_query(buf@, q@, cs, n as int);
            assert(places(out@) =~= Seq::<(int, int)>::empty());
        }
        return out;
    }
    let fq = folded_all(q);
    let mut l: usize = 0;
    while l < n
        invariant
            n == buf@.len(),
            l <= n,
            q@.len() > 0,
            fq@.len() == q@.len(),
            forall|k: int| 0 <= k < q@.len() ==> (#[trigger] fq@[k])@ == lowercase(seq![q@[k]]),
            places(out@) == matches_upto(buf@, q@, cs, l as int),
        decreases n - l,
    {
        let line = buf.line_chars(l);
        push_line_matches(&mut out, l, line, q, &fq, cs);
        l = l + 1;
    }
    out
}

/// An empty query occurs nowhere.
pub proof fn lemma_empty_query(lines: Seq<Seq<char>>, q: Seq<char>, cs: bool, n: int)
    requires
        q.len() == 0,
    ensures
        matches_upto(lines, q, cs, n) == Seq::<(int, int)>::empty(),
    decreases n,
{
    if n > 0 {
        lemma_empty_query(lines, q, cs, n - 1);
        assert(line_matches(lines[n - 1], q, cs, 0) == Seq::<int>::empty());
        assert(line_matches(lines[n - 1], q, cs, 0).map_values(|c: int| (n - 1, c)) =~= Seq::<
            (int, int),
        >::empty());
        assert(matches_upto(lines, q, cs, n) =~= Seq::<(int, int)>::empty());
    }
}

/// The index of the place nearest after `cur`.
pub fn near_match(ms: &Vec<(usize, usize)>, cur: (usize, usize)) -> (res: Option<usize>)
    ensures
        match res {
            Some(i) => near_index(places(ms@), (cur.0 as int, cur.1 as int)) == Some(i as int),
            None => near_index(places(ms@), (cur.0 as int, cur.1 as int)) is None,
        },
{
    let ghost p = places(ms@);
    let ghost c = (cur.0 as int, cur.1 as int);
    if ms.len() == 0 {
        assert(p.len() == 0);
        return None;
    }
    let mut i: usize = 0;
    while i < ms.len()
        invariant
            i <= ms@.len(),
            p == places(ms@),
            c == (cur.0 as int, cur.1 as int),
            ms@.len() > 0,
            first_from(p, c, 0) == first_from(p, c, i as int),
        decreases ms@.len() - i,
    {
        let m = ms[i];
        assert(p[i as int] == (m.0 as int, m.1 as int));
        assert(first_from(p, c, i as int) == if pos_le(c.0, c.1, p[i as int].0, p[i as int].1) {
            Some(i as int)
        } else {
            first_from(p, c, i + 1)
        });
        if cur.0 < m.0 || (cur.0 == m.0 && cur.1 <= m.1) {
            return Some(i);
        }
        i = i + 1;
    }
    assert(first_from(p, c, i as int) is None);
    Some(0)
}

/// The places where the query of `s` occurs in the document of `e`.
pub open spec fn matches_in(e: EditorModel, s: SearchModel) -> Seq<(int, int)> {
    find_all(e.lines, s.query, s.case_sensitive)
}

/// The current place, when the current index is in range.
pub open spec fn current_in(e: EditorModel, s: SearchModel) -> Option<(int, int)> {
    match s.current {
        Some(i) => if 0 <= i < matches_in(e, s).len() {
            Some(matches_in(e, s)[i])
        } else {
            None
        },
        None => None,
    }
}

/// The dialog with another current index.
pub open spec fn with_cur(s: SearchModel, c: Option<int>) -> SearchModel {
    SearchModel { current: c, ..s }
}

/// The editor with the cursor on `p` and no selection; unchanged without
/// a place.
pub open spec fn to_place(e: EditorModel, p: Option<(int, int)>) -> EditorModel {
    match p {
        Some(q) => cleared(EditorModel { cursor: q, ..e }),
        None => e,
    }
}

/// The first place found becomes the current one and the cursor goes there.
pub open spec fn requeried(e: EditorModel, s: SearchModel) -> (EditorModel, SearchModel) {
    let s1 = with_cur(
        s,
        if matches_in(e, s).len() > 0 {
            Some(0int)
        } else {
            None
        },
    );
    (to_place(e, current_in(e, s1)), s1)
}

/// Find next (or previous): the next (or previous) place, going round,
/// becomes the current one and the cursor goes there.
pub open spec fn stepped(e: EditorModel, s: SearchModel, forward: bool) -> (EditorModel, SearchModel) {
    let n = matches_in(e, s).len() as int;
    if n == 0 {
        (e, s)
    } else {
        let s1 = with_cur(
            s,
            Some(
                if forward {
                    next_index(s.current, n)
                } else {
                    prev_index(s.current, n)
                },
            ),
        );
        (to_place(e, current_in(e, s1)), s1)
    }
}

/// Replace next: the current place is replaced by the replacement text and
/// the change recorded; the places are found again, the current index kept
/// while in range, the cursor put on the current place, and the selection
/// cleared.  Without a current place nothing happens.
pub open spec fn replaced_next(e: EditorModel, s: SearchModel) -> (EditorModel, SearchModel) {
    match current_in(e, s) {
        None => (e, s),
        Some(p) => {
            let e1 = edited(e, p, (p.0, p.1 + s.query.len()), s.replace_with, true);
            let s1 = with_cur(s, kept_index(s.current, matches_in(e1, s).len() as int));
            let e2 = match current_in(e1, s1) {
                Some(q) => EditorModel { cursor: q, ..e1 },
                None => e1,
            };
            (cleared(e2), s1)
        },
    }
}

/// The places `ms[k - 1]`, ..., `ms[0]`, in that order, each with the
/// `len` characters after it, replaced by `t`.
pub open spec fn replaced_from(e: EditorModel, ms: Seq<(int, int)>, len: int, t: Seq<char>, k: int) -> EditorModel
    decreases k,
{
    if k <= 0 {
        e
    } else {
        let p = ms[k - 1];
        replaced_from(edited(e, p, (p.0, p.1 + len), t, true), ms, len, t, k - 1)
    }
}

/// Replace all: every place is replaced, from the last to the first, as one
/// undo step (joined to a typing run going on); the places are found again,
/// the current index kept while in range, and the selection cleared.
pub open spec fn replaced_all(e: EditorModel, s: SearchModel) -> (EditorModel, SearchModel) {
    let ms = matches_in(e, s);
    if ms.len() == 0 {
        (e, s)
    } else {
        let e2 = replaced_from(group_started(e), ms, s.query.len() as int, s.replace_with, ms.len() as int);
        let e3 = if e.is_grouping {
            e2
        } else {
            group_ended(e2)
        };
        (cleared(e3), with_cur(s, kept_index(s.current, matches_in(e3, s).len() as int)))
    }
}

/// What the search dialog is asked to do.
#[derive(Clone, Debug)]
pub enum SearchMessage {
    /// Open the dialog.
    Open,
    /// Open the dialog with its replace field.
    OpenReplace,
    Close,
    /// The text searched for changed.
    QueryChanged(String),
    /// The replacement text changed.
    ReplaceChanged(String),
    ToggleCaseSensitive,
    FindNext,
    FindPrevious,
    /// Replace the current place and go on to the next.
    ReplaceNext,
    /// Replace every place, as one undo step.
    ReplaceAll,
    /// Tab in the dialog.
    Tab,
    /// Shift+Tab in the dialog.
    ShiftTab,
}

/// The editor and the dialog after `msg`.
pub open spec fn search_step(e: EditorModel, s: SearchModel, msg: SearchMessage) -> (EditorModel, SearchModel) {
    match msg {
        SearchMessage::Open => (e, SearchModel { open: true, replace_mode: false, field: SearchField::Search, ..s }),
        SearchMessage::OpenReplace => (
            e,
            SearchModel { open: true, replace_mode: true, field: SearchField::Search, ..s },
        ),
        SearchMessage::Close => (e, SearchModel { open: false, ..s }),
        SearchMessage::QueryChanged(q) => requeried(e, SearchModel { query: q@, ..s }),
        SearchMessage::ReplaceChanged(t) => (e, SearchModel { replace_with: t@, ..s }),
        SearchMessage::ToggleCaseSensitive => requeried(e, SearchModel { case_sensitive: !s.case_sensitive, ..s }),
        SearchMessage::FindNext => stepped(e, s, true),
        SearchMessage::FindPrevious => stepped(e, s, false),
        SearchMessage::ReplaceNext => replaced_next(e, s),
        SearchMessage::ReplaceAll => replaced_all(e, s),
        SearchMessage::Tab | SearchMessage::ShiftTab => (e, SearchModel { field: other_field(s), ..s }),
    }
}

/// Whether `msg` asks to scroll the cursor into view: when it goes to a
/// place found.
pub open spec fn search_scrolls(e: EditorModel, s: SearchModel, msg: SearchMessage) -> bool {
    match msg {
        SearchMessage::QueryChanged(q) => matches_in(e, SearchModel { query: q@, ..s }).len() > 0,
        SearchMessage::ToggleCaseSensitive => matches_in(e, SearchModel { case_sensitive: !s.case_sensitive, ..s }).len()
            > 0,
        SearchMessage::FindNext | SearchMessage::FindPrevious | SearchMessage::ReplaceAll => matches_in(e, s).len() > 0,
        SearchMessage::ReplaceNext => current_in(e, s) is Some,
        _ => false,
    }
}

/// The field of the dialog that `msg` gives the keyboard to.
pub open spec fn focus_after(s: SearchModel, msg: SearchMessage) -> Option<SearchField> {
    match msg {
        SearchMessage::Open | SearchMessage::OpenReplace => Some(SearchField::Search),
        SearchMessage::Tab | SearchMessage::ShiftTab => Some(other_field(s)),
        _ => None,
    }
}

/// What the surroundings are asked to do after a message of the dialog.
#[derive(Clone, Copy, Debug)]
pub struct SearchEffects {
    /// Scroll so that the cursor is in view.
    pub scroll_to_cursor: bool,
    /// Give the keyboard to this field of the dialog.
    pub focus_field: Option<SearchField>,
}

/// Whether the current place is found again after an editor message: after
/// typing, Backspace, Delete, Enter, pasting or committing some text, and
/// an undo or redo that changed the document.
pub open spec fn refreshes(msg: Message, eff: Effects) -> bool {
    match msg {
        Message::CharacterInput(_) | Message::Backspace | Message::Delete | Message::Enter => true,
        Message::Paste(t) => t@.len() > 0,
        Message::ImeCommit(t) => t@.len() > 0,
        Message::Undo | Message::Redo => eff.scroll_to_cursor,
        _ => false,
    }
}

/// While the dialog is open with a query, the current place becomes the
/// one nearest after the cursor.
pub open spec fn refreshed(e: EditorModel, s: SearchModel) -> SearchModel {
    if s.open && s.query.len() > 0 {
        with_cur(s, near_index(matches_in(e, s), e.cursor))
    } else {
        s
    }
}

fn kept_exec(cur: Option<usize>, n: usize) -> (res: Option<usize>)
    ensures
        opt_index(res) == kept_index(opt_index(cur), n as int),
{
    if n == 0 {
        None
    } else {
        match cur {
            Some(k) => if k < n {
                Some(k)
            } else {
                Some(0)
            },
            None => Some(0),
        }
    }
}

/// An optional machine index as an optional mathematical one.
pub open spec fn opt_index(c: Option<usize>) -> Option<int> {
    match c {
        Some(i) => Some(i as int),
        None => None,
    }
}

impl SearchState {
    /// Every place where the query occurs in the editor's document, in
    /// document order.
    pub fn matches(&self, editor: &CodeEditor) -> (res: Vec<(usize, usize)>)
        requires
            editor.wf(),
        ensures
            places(res@) == matches_in(editor@, self@),
    {
        let q = chars_of(self.query.as_str());
        find_matches(editor.text_buffer(), &q, self.case_sensitive)
    }

    /// The current place, found in `ms`.
    fn current_place(&self, editor: &CodeEditor, ms: &Vec<(usize, usize)>) -> (res: Option<(usize, usize)>)
        requires
            editor.wf(),
            places(ms@) == matches_in(editor@, self@),
        ensures
            match res {
                Some(p) => current_in(editor@, self@) == Some(pos_int(p)) && valid_pos(
                    editor@.lines,
                    p.0 as int,
                    p.1 as int,
                ) && valid_pos(editor@.lines, p.0 as int, p.1 + self@.query.len()),
                None => current_in(editor@, self@) is None,
            },
    {
        match self.current {
            Some(i) => if i < ms.len() {
                let p = ms[i];
                proof {
                    let e = editor@;
                    let s = self@;
                    if s.query.len() == 0 {
                        lemma_empty_query(e.lines, s.query, s.case_sensitive, e.lines.len() as int);
                    }
                    lemma_find_all(e.lines, s.query, s.case_sensitive);
                    assert(places(ms@)[i as int] == pos_int(p));
                }
                Some(p)
            } else {
                None
            },
            None => None,
        }
    }

    /// The cursor goes to the current place.
    fn go_to_current(&self, editor: &mut CodeEditor, ms: &Vec<(usize, usize)>)
        requires
            old(editor).wf(),
            places(ms@) == matches_in(old(editor)@, self@),
        ensures
            final(editor).wf(),
            final(editor)@ == to_place(old(editor)@, current_in(old(editor)@, self@)),
    {
        match self.current_place(editor, ms) {
            Some(p) => editor.move_cursor_to(p),
            None => {},
        }
    }

    /// After a message to the editor: while the dialog is open with a
    /// query, the place nearest after the cursor becomes the current one.
    pub fn after_editor_message(&mut self, editor: &CodeEditor, msg: &Message, eff: &Effects)
        requires
            editor.wf(),
        ensures
            final(self)@ == if refreshes(*msg, *eff) {
                refreshed(editor@, old(self)@)
            } else {
                old(self)@
            },
    {
        let go = match msg {
            Message::CharacterInput(_) | Message::Backspace | Message::Delete | Message::Enter => true,
            Message::Paste(t) => !t.as_str().is_empty(),
            Message::ImeCommit(t) => !t.as_str().is_empty(),
            Message::Undo | Message::Redo => eff.scroll_to_cursor,
            _ => false,
        };
        if go && self.open && !self.query.as_str().is_empty() {
            let ms = self.matches(editor);
            self.current = near_match(&ms, editor.cursor_position());
        }
    }

    /// The places are found anew and the first becomes the current one,
    /// the cursor going there; returns whether there is one.
    fn requery(&mut self, editor: &mut CodeEditor) -> (found: bool)
        requires
            old(editor).wf(),
        ensures
            final(editor).wf(),
            (final(editor)@, final(self)@) == requeried(old(editor)@, old(self)@),
            found == (matches_in(old(editor)@, old(self)@).len() > 0),
    {
        let ms = self.matches(editor);
        if ms.len() > 0 {
            self.current = Some(0);
        } else {
            self.current = None;
        }
        self.go_to_current(editor, &ms);
        ms.len() > 0
    }

    fn find(&mut self, editor: &mut CodeEditor, forward: bool) -> (found: bool)
        requires
            old(editor).wf(),
        ensures
            final(editor).wf(),
            (final(editor)@, final(self)@) == stepped(old(editor)@, old(self)@, forward),
            found == (matches_in(old(editor)@, old(self)@).len() > 0),
    {
        let ms = self.matches(editor);
        let n = ms.len();
        if n == 0 {
            return false;
        }
        let i: usize = if forward {
            match self.current {
                Some(k) => if k < n - 1 {
                    k + 1
                } else {
                    0
                },
                None => 0,
            }
        } else {
            match self.current {
                Some(k) => if k == 0 || k > n {
                    n - 1
                } else {
                    k - 1
                },
                None => n - 1,
            }
        };
        self.current = Some(i);
        self.go_to_current(editor, &ms);
        true
    }

    fn replace_next(&mut self, editor: &mut CodeEditor) -> (done: bool)
        requires
            old(editor).wf(),
        ensures
            final(editor).wf(),
            (final(editor)@, final(self)@) == replaced_next(old(editor)@, old(self)@),
            done == (current_in(old(editor)@, old(self)@) is Some),
    {
        let ms = self.matches(editor);
        match self.current_place(editor, &ms) {
            None => false,
            Some(p) => {
                let q = chars_of(self.query.as_str());
                let ll = editor.line_len(p.0);
                let e = (p.0, p.1 + q.len());
                let t = chars_of(self.replace_with.as_str());
                editor.replace_range(p, e, t);
                let ms2 = self.matches(editor);
                self.current = kept_exec(self.current, ms2.len());
                match self.current_place(editor, &ms2) {
                    Some(p2) => editor.move_cursor_to(p2),
                    None => editor.clear_selection(),
                }
                true
            },
        }
    }

    fn replace_all(&mut self, editor: &mut CodeEditor) -> (done: bool)
        requires
            old(editor).wf(),
        ensures
            final(editor).wf(),
            (final(editor)@, final(self)@) == replaced_all(old(editor)@, old(self)@),
            done == (matches_in(old(editor)@, old(self)@).len() > 0),
    {
        let ghost e0 = editor@;
        let ghost s = self@;
        let ms = self.matches(editor);
        let n = ms.len();
        if n == 0 {
            return false;
        }
        let q = chars_of(self.query.as_str());
        let qlen = q.len();
        let ghost pl = places(ms@);
        proof {
            if s.query.len() == 0 {
                lemma_empty_query(e0.lines, s.query, s.case_sensitive, e0.lines.len() as int);
            }
            lemma_find_all(e0.lines, s.query, s.case_sensitive);
            assert(pl.take(n as int) =~= pl);
        }
        let was = editor.is_grouping();
        editor.begin_edit_group();
        proof {
            reveal(group_started);
        }
        let ghost target = replaced_from(editor@, pl, qlen as int, s.replace_with, n as int);
        let mut k = n;
        while k > 0
            invariant
                editor.wf(),
                k <= n,
                n == ms@.len(),
                pl == places(ms@),
                qlen == s.query.len(),
                self@ == s,
                spaced(pl.take(k as int), qlen as int, editor@.lines),
                replaced_from(editor@, pl, qlen as int, s.replace_with, k as int) == target,
            decreases k,
        {
            let p = ms[k - 1];
            let ghost before = editor@;
            proof {
                editor.lemma_model_ok();
                assert(pl.take(k as int)[k - 1] == pl[k - 1]);
                assert(pl[k - 1] == pos_int(p));
            }
            let ll = editor.line_len(p.0);
            let e = (p.0, p.1 + qlen);
            let t = chars_of(self.replace_with.as_str());
            editor.replace_range(p, e, t);
            proof {
                let pk = pl.take(k as int);
                let pk1 = pl.take(k - 1);
                reveal(edited);
                assert forall|i: int| 0 <= i < pk1.len() implies valid_pos(editor@.lines, (#[trigger] pk1[i]).0, pk1[i].1)
                    && valid_pos(editor@.lines, pk1[i].0, pk1[i].1 + qlen) by {
                    assert(pk1[i] == pk[i]);
                    assert(pk[k - 1] == pos_int(p));
                    assert(pos_le(pk[i].0, pk[i].1 + qlen, pk[k - 1].0, pk[k - 1].1));
                    lemma_replace_keeps_before(before.lines, pos_int(p), pos_int(e), t@, pk[i], qlen as int);
                }
                assert forall|i: int, j: int| 0 <= i < j < pk1.len() implies pos_le(
                    (#[trigger] pk1[i]).0,
                    pk1[i].1 + qlen,
                    (#[trigger] pk1[j]).0,
                    pk1[j].1,
                ) by {
                    assert(pk1[i] == pk[i] && pk1[j] == pk[j]);
                }
            }
            k = k - 1;
        }
        if !was {
            editor.finish_edit_group();
        }
        let ms2 = self.matches(editor);
        self.current = kept_exec(self.current, ms2.len());
        editor.clear_selection();
        true
    }

    /// Handles a message of the dialog.
    pub fn update(&mut self, editor: &mut CodeEditor, msg: &SearchMessage) -> (eff: SearchEffects)
        requires
            old(editor).wf(),
        ensures
            final(editor).wf(),
            (final(editor)@, final(self)@) == search_step(old(editor)@, old(self)@, *msg),
            eff.scroll_to_cursor == search_scrolls(old(editor)@, old(self)@, *msg),
            eff.focus_field == focus_after(old(self)@, *msg),
    {
        match msg {
            SearchMessage::Open | SearchMessage::OpenReplace => {
                self.open = true;
                self.replace_mode = matches!(msg, SearchMessage::OpenReplace);
                self.field = SearchField::Search;
                SearchEffects { scroll_to_cursor: false, focus_field: Some(SearchField::Search) }
            },
            SearchMessage::Close => {
                self.open = false;
                SearchEffects { scroll_to_cursor: false, focus_field: None }
            },
            SearchMessage::QueryChanged(q) => {
                self.query = q.clone();
                let found = self.requery(editor);
                SearchEffects { scroll_to_cursor: found, focus_field: None }
            },
            SearchMessage::ReplaceChanged(t) => {
                self.replace_with = t.clone();
                SearchEffects { scroll_to_cursor: false, focus_field: None }
            },
            SearchMessage::ToggleCaseSensitive => {
                self.case_sensitive = !self.case_sensitive;
                let found = self.requery(editor);
                SearchEffects { scroll_to_cursor: found, focus_field: None }
            },
            SearchMessage::FindNext => {
                let found = self.find(editor, true);
                SearchEffects { scroll_to_cursor: found, focus_field: None }
            },
            SearchMessage::FindPrevious => {
                let found = self.find(editor, false);
                SearchEffects { scroll_to_cursor: found, focus_field: None }
            },
            SearchMessage::ReplaceNext => {
                let done = self.replace_next(editor);
                SearchEffects { scroll_to_cursor: done, focus_field: None }
            },
            SearchMessage::ReplaceAll => {
                let done = self.replace_all(editor);
                SearchEffects { scroll_to_cursor: done, focus_field: None }
            },
            SearchMessage::Tab | SearchMessage::ShiftTab => {
                let f = if self.replace_mode && matches!(self.field, SearchField::Search) {
                    SearchField::Replace
                } else {
                    SearchField::Search
                };
                self.field = f;
                SearchEffects { scroll_to_cursor: false, focus_field: Some(f) }
            },
        }
    }
}

/// Find Previous undoes Find Next, and Find Next undoes Find Previous: from
/// the current place `k`, stepping one way and then back makes `k` the
/// current place again and puts the cursor on it, the document unchanged.
pub proof fn lemma_find_round_trip(e: EditorModel, s: SearchModel, k: int, forward_first: bool)
    requires
        0 <= k < matches_in(e, s).len(),
        s.current == Some(k),
    ensures
        ({
            let (m1, first) = if forward_first {
                (SearchMessage::FindNext, SearchMessage::FindPrevious)
            } else {
                (SearchMessage::FindPrevious, SearchMessage::FindNext)
            };
            let (e1, s1) = search_step(e, s, m1);
            let (e2, s2) = search_step(e1, s1, first);
            &&& s2.current == Some(k)
            &&& e2.cursor == matches_in(e, s)[k]
            &&& e2.lines == e.lines
        }),
{
    let n = matches_in(e, s).len() as int;
    let (e1, s1) = search_step(e, s, if forward_first { SearchMessage::FindNext } else { SearchMessage::FindPrevious });
    assert(e1.lines == e.lines);
    assert(matches_in(e1, s1) == matches_in(e, s));
}

/// Find Next moves to the place after the current one, and from the last
/// place to the first.
pub proof fn lemma_find_next_follows(e: EditorModel, s: SearchModel, k: int)
    requires
        0 <= k < matches_in(e, s).len(),
        s.current == Some(k),
    ensures
        ({
            let n = matches_in(e, s).len() as int;
            let (e1, s1) = search_step(e, s, SearchMessage::FindNext);
            let j = if k + 1 < n {
                k + 1
            } else {
                0
            };
            &&& s1.current == Some(j)
            &&& e1.cursor == matches_in(e, s)[j]
        }),
{
}

/// Find Previous moves to the place before the current one, and from the
/// first place to the last.
pub proof fn lemma_find_previous_precedes(e: EditorModel, s: SearchModel, k: int)
    requires
        0 <= k < matches_in(e, s).len(),
        s.current == Some(k),
    ensures
        ({
            let n = matches_in(e, s).len() as int;
            let (e1, s1) = search_step(e, s, SearchMessage::FindPrevious);
            let j = if k > 0 {
                k - 1
            } else {
                n - 1
            };
            &&& s1.current == Some(j)
            &&& e1.cursor == matches_in(e, s)[j]
        }),
{
}

} // verus!
