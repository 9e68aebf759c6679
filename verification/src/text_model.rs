//! The language-server mirror of a document.
//!
//! The client keeps its own copy of each open document as a list of lines,
//! applies to it every change it sends to the server, and converts
//! positions from character columns to the UTF-16 columns the protocol
//! counts in.

use vstd::prelude::*;
use vstd::utf8::{char_is_scalar, encode_utf8};

use crate::buffer::{lines_view, push_lines_of, push_range};
use crate::chars::{chars_of, string_from_chars};
use crate::lines::{
    lemma_flat_lines_of, lemma_lines_of_len, lemma_lines_of_push, lemma_lines_of_valid, lines_of, no_newline,
    pos_le, replace_lines, text_of, valid_lines, valid_pos,
};

verus! {

/// A place in a document: a line and a column.
#[derive(Clone, Copy, PartialEq, Eq, Debug)]
pub struct LspPosition {
    pub line: u32,
    pub character: u32,
}

/// The text between two places.
#[derive(Clone, Copy, PartialEq, Eq, Debug)]
pub struct LspRange {
    pub start: LspPosition,
    pub end: LspPosition,
}

/// The text of a range replaced by new text.
#[derive(Clone, Debug)]
pub struct LspTextChange {
    pub range: LspRange,
    pub text: String,
}

/// The number of bytes of the UTF-8 encoding of `c`.
pub open spec fn utf8_width(c: char) -> nat {
    if (c as u32) <= 0x7F {
        1
    } else if (c as u32) <= 0x7FF {
        2
    } else if (c as u32) <= 0xFFFF {
        3
    } else {
        4
    }
}

/// The number of bytes of the UTF-8 encoding of `s`.
pub open spec fn utf8_len(s: Seq<char>) -> nat
    decreases s.len(),
{
    if s.len() == 0 {
        0
    } else {
        utf8_width(s[0]) + utf8_len(s.drop_first())
    }
}

/// The number of UTF-16 code units of `c`.
pub open spec fn utf16_width(c: char) -> nat {
    if (c as u32) < 0x10000 {
        1
    } else {
        2
    }
}

/// The number of UTF-16 code units of `s`.
pub open spec fn utf16_len(s: Seq<char>) -> nat
    decreases s.len(),
{
    if s.len() == 0 {
        0
    } else {
        utf16_width(s[0]) + utf16_len(s.drop_first())
    }
}

proof fn lemma_utf8_concat(a: Seq<char>, b: Seq<char>)
    ensures
        utf8_len(a + b) == utf8_len(a) + utf8_len(b),
    decreases a.len(),
{
    if a.len() > 0 {
        assert((a + b).drop_first() =~= a.drop_first() + b);
        assert((a + b)[0] == a[0]);
        lemma_utf8_concat(a.drop_first(), b);
    } else {
        assert(a + b =~= b);
    }
}

proof fn lemma_utf16_concat(a: Seq<char>, b: Seq<char>)
    ensures
        utf16_len(a + b) == utf16_len(a) + utf16_len(b),
    decreases a.len(),
{
    if a.len() > 0 {
        assert((a + b).drop_first() =~= a.drop_first() + b);
        assert((a + b)[0] == a[0]);
        lemma_utf16_concat(a.drop_first(), b);
    } else {
        assert(a + b =~= b);
    }
}

/// Growing a prefix by one character adds that character's width.
proof fn lemma_prefix_step(s: Seq<char>, k: int)
    requires
        0 <= k < s.len(),
    ensures
        utf8_len(s.take(k + 1)) == utf8_len(s.take(k)) + utf8_width(s[k]),
        utf16_len(s.take(k + 1)) == utf16_len(s.take(k)) + utf16_width(s[k]),
        utf8_len(s.take(k + 1)) <= utf8_len(s),
        utf16_len(s.take(k + 1)) <= utf16_len(s),
{
    let one = seq![s[k]];
    assert(s.take(k + 1) =~= s.take(k) + one);
    assert(s =~= s.take(k + 1) + s.skip(k + 1));
    lemma_utf8_concat(s.take(k), one);
    lemma_utf16_concat(s.take(k), one);
    lemma_utf8_concat(s.take(k + 1), s.skip(k + 1));
    lemma_utf16_concat(s.take(k + 1), s.skip(k + 1));
    assert(one.drop_first() =~= Seq::<char>::empty());
    assert(utf8_len(Seq::<char>::empty()) == 0);
    assert(utf16_len(Seq::<char>::empty()) == 0);
    assert(utf8_len(one) == utf8_width(s[k]));
    assert(utf16_len(one) == utf16_width(s[k]));
}

/// The UTF-8 encoding of `s` has `utf8_len(s)` bytes.
proof fn lemma_encode_len(s: Seq<char>)
    ensures
        encode_utf8(s).len() == utf8_len(s),
    decreases s.len(),
{
    if s.len() > 0 {
        char_is_scalar(s[0]);
        lemma_encode_len(s.drop_first());
    }
}

fn char_utf8_width(c: char) -> (n: usize)
    ensures
        n == utf8_width(c),
{
    let v = c as u32;
    if v <= 0x7F {
        1
    } else if v <= 0x7FF {
        2
    } else if v <= 0xFFFF {
        3
    } else {
        4
    }
}

fn char_utf16_width(c: char) -> (n: u32)
    ensures
        n == utf16_width(c),
{
    let v = c as u32;
    if v < 0x10000 {
        1
    } else {
        2
    }
}

/// The smaller of `a` and `b`.
pub open spec fn min_int(a: int, b: int) -> int {
    if a <= b {
        a
    } else {
        b
    }
}

/// The byte index at which character `char_index` of `s` starts, or the
/// byte length of `s` when there is no such character.
pub fn char_to_byte_index(s: &str, char_index: usize) -> (res: usize)
    ensures
        res == utf8_len(s@.take(min_int(char_index as int, s@.len() as int))),
{
    let cs = chars_of(s);
    let bytes = s.as_bytes();
    let total = bytes.len();
    proof {
        lemma_encode_len(s@);
        assert(s@.take(s@.len() as int) =~= s@);
    }
    let n = cs.len();
    let mut i: usize = 0;
    let mut b: usize = 0;
    proof {
        assert(cs@.take(0) =~= Seq::<char>::empty());
    }
    while i < n && i < char_index
        invariant
            cs@ == s@,
            n == cs@.len(),
            i <= n,
            i <= char_index,
            total == utf8_len(s@),
            b == utf8_len(cs@.take(i as int)),
        decreases n - i,
    {
        proof {
            lemma_prefix_step(cs@, i as int);
        }
        b = b + char_utf8_width(cs[i]);
        i = i + 1;
    }
    b
}

/// A line without its trailing carriage return, if it has one.
pub open spec fn strip_cr(s: Seq<char>) -> Seq<char> {
    if s.len() > 0 && s.last() == '\r' {
        s.drop_last()
    } else {
        s
    }
}

/// The lines of a text as the client stores them: split at `"\n"` or
/// `"\r\n"`, a final line ending starting no extra line, and an empty text
/// holding one empty line.
pub open spec fn text_lines(t: Seq<char>) -> Seq<Seq<char>> {
    let p = lines_of(t);
    if t.len() == 0 {
        seq![Seq::<char>::empty()]
    } else {
        let keep = if t.last() == '\n' {
            p.len() - 1
        } else {
            p.len() as int
        };
        Seq::new(keep as nat, |j: int| if j + 1 < p.len() {
            strip_cr(p[j])
        } else {
            p[j]
        })
    }
}

/// The column `c` of line `l` held to the line's length.
pub open spec fn clamp_col(ls: Seq<Seq<char>>, l: int, c: int) -> int {
    min_int(c, ls[l].len() as int)
}

/// The lines after `r` is replaced by `t`.  A range that names a line past
/// the end changes nothing; columns past the end of a line stand for its end.
pub open spec fn changed_lines(ls: Seq<Seq<char>>, r: LspRange, t: Seq<char>) -> Seq<Seq<char>> {
    let sl = r.start.line as int;
    let el = r.end.line as int;
    if sl >= ls.len() || el >= ls.len() {
        ls
    } else {
        let prefix = ls[sl].take(clamp_col(ls, sl, r.start.character as int));
        let suffix = ls[el].skip(clamp_col(ls, el, r.end.character as int));
        ls.take(sl) + lines_of(prefix + t + suffix) + ls.skip(el + 1)
    }
}

/// The lines of a range do not overlap backwards by more than a line break
/// (the splice of such a range is refused).
pub open spec fn range_ok(ls: Seq<Seq<char>>, r: LspRange) -> bool {
    (r.start.line as int) < ls.len() && (r.end.line as int) < ls.len() ==> r.start.line as int
        <= r.end.line as int + 1
}

/// The line `l`, or an empty line when there is none.
pub open spec fn line_or_empty(ls: Seq<Seq<char>>, l: int) -> Seq<char> {
    if 0 <= l < ls.len() {
        ls[l]
    } else {
        Seq::empty()
    }
}

/// The UTF-16 column of `p`.
pub open spec fn utf16_column(ls: Seq<Seq<char>>, p: LspPosition) -> nat {
    let line = line_or_empty(ls, p.line as int);
    utf16_len(line.take(min_int(p.character as int, line.len() as int)))
}

/// The UTF-16 column of `p` fits the protocol's 32-bit columns.
pub open spec fn utf16_fits(ls: Seq<Seq<char>>, p: LspPosition) -> bool {
    utf16_column(ls, p) <= u32::MAX
}

/// A change can be applied and its range converted.
pub open spec fn change_fits(ls: Seq<Seq<char>>, c: LspTextChange) -> bool {
    &&& range_ok(ls, c.range)
    &&& utf16_fits(ls, c.range.start)
    &&& utf16_fits(ls, c.range.end)
}

/// The lines after the changes of `cs`, applied in order.
pub open spec fn after_changes(ls: Seq<Seq<char>>, cs: Seq<LspTextChange>) -> Seq<Seq<char>>
    decreases cs.len(),
{
    if cs.len() == 0 {
        ls
    } else {
        let prev = after_changes(ls, cs.drop_last());
        changed_lines(prev, cs.last().range, cs.last().text@)
    }
}

/// Each change of `cs` fits the lines left by the ones before it.
pub open spec fn changes_fit(ls: Seq<Seq<char>>, cs: Seq<LspTextChange>) -> bool
    decreases cs.len(),
{
    if cs.len() == 0 {
        true
    } else {
        changes_fit(ls, cs.drop_last()) && change_fits(after_changes(ls, cs.drop_last()), cs.last())
    }
}

/// A range with its columns counted in UTF-16 code units.
pub open spec fn utf16_range(ls: Seq<Seq<char>>, r: LspRange) -> LspRange {
    LspRange {
        start: LspPosition { line: r.start.line, character: utf16_column(ls, r.start) as u32 },
        end: LspPosition { line: r.end.line, character: utf16_column(ls, r.end) as u32 },
    }
}

/// The client's copy of an open document, held as its lines.
pub struct TextModel {
    lines: Vec<Vec<char>>,
}

impl View for TextModel {
    type V = Seq<Seq<char>>;

    closed spec fn view(&self) -> Seq<Seq<char>> {
        lines_view(self.lines@)
    }
}

proof fn lemma_lines_view_push(v: Seq<Vec<char>>, x: Vec<char>)
    ensures
        lines_view(v.push(x)) == lines_view(v).push(x@),
{
    assert(lines_view(v.push(x)) =~= lines_view(v).push(x@));
}

impl TextModel {
    /// At least one line, and no line holds a newline.
    pub open spec fn wf(&self) -> bool {
        valid_lines(self@)
    }

    /// The model of `text`.
    pub fn from_text(text: &str) -> (res: Self)
        ensures
            res@ == text_lines(text@),
            res.wf(),
            !text@.contains('\r') && (text@.len() == 0 || text@.last() != '\n') ==> text_of(res@) == text@,
    {
        let cs = chars_of(text);
        let mut out: Vec<Vec<char>> = Vec::new();
        if cs.len() == 0 {
            let empty: Vec<char> = Vec::new();
            out.push(empty);
            proof {
                lemma_lines_view_push(Seq::<Vec<char>>::empty(), empty);
                assert(lines_view(out@) =~= text_lines(text@));
                assert(no_newline(Seq::<char>::empty()));
                if !text@.contains('\r') {
                    lemma_text_lines_join(text@);
                }
            }
            return TextModel { lines: out };
        }
        let mut pieces: Vec<Vec<char>> = Vec::new();
        push_lines_of(&mut pieces, &cs);
        let ghost p = lines_of(cs@);
        proof {
            assert(lines_view(Seq::<Vec<char>>::empty()) + p =~= p);
            lemma_lines_of_valid(cs@);
            lemma_lines_of_len(cs@);
            if cs@.last() == '\n' {
                lemma_lines_of_push(cs@.drop_last(), '\n');
                assert(cs@.drop_last().push('\n') =~= cs@);
                lemma_lines_of_len(cs@.drop_last());
            }
        }
        let np = pieces.len();
        let keep = if cs[cs.len() - 1] == '\n' {
            np - 1
        } else {
            np
        };
        let ghost target = text_lines(text@);
        let mut i: usize = 0;
        while i < keep
            invariant
                lines_view(pieces@) == p,
                p == lines_of(cs@),
                cs@ == text@,
                np == p.len(),
                keep <= np,
                keep == target.len(),
                target == text_lines(text@),
                cs@.len() > 0,
                valid_lines(p),
                i <= keep,
                lines_view(out@) == target.take(i as int),
            decreases keep - i,
        {
            let piece = &pieces[i];
            let mut line: Vec<char> = Vec::new();
            let len = piece.len();
            proof {
                assert(piece@ == p[i as int]);
            }
            if i + 1 < np && len > 0 && piece[len - 1] == '\r' {
                push_range(&mut line, piece, 0, len - 1);
                proof {
                    assert(line@ =~= strip_cr(p[i as int]));
                }
            } else {
                push_range(&mut line, piece, 0, len);
                proof {
                    assert(line@ =~= p[i as int]);
                    assert(i + 1 < np ==> strip_cr(p[i as int]) == p[i as int]);
                }
            }
            let ghost before = out@;
            out.push(line);
            proof {
                lemma_lines_view_push(before, line);
                assert(target[i as int] == line@);
                assert(lines_view(out@) =~= target.take(i + 1));
            }
            i = i + 1;
        }
        proof {
            assert(target.take(keep as int) =~= target);
            assert(valid_lines(target)) by {
                assert forall|j: int| 0 <= j < target.len() implies #[trigger] no_newline(target[j]) by {
                    assert(no_newline(p[j]));
                }
            }
        }
        proof {
            if !text@.contains('\r') && (text@.len() == 0 || text@.last() != '\n') {
                lemma_text_lines_join(text@);
            }
        }
        TextModel { lines: out }
    }

    /// Replaces the text of `change.range` by `change.text`.
    pub fn apply_change(&mut self, change: &LspTextChange)
        requires
            old(self).wf(),
            range_ok(old(self)@, change.range),
        ensures
            final(self)@ == changed_lines(old(self)@, change.range, change.text@),
            final(self).wf(),
    {
        let ghost ls = self@;
        let sl = change.range.start.line as usize;
        let el = change.range.end.line as usize;
        let n = self.lines.len();
        if sl >= n || el >= n {
            return;
        }
        let sl_len = self.lines[sl].len();
        let el_len = self.lines[el].len();
        let sc = if (change.range.start.character as usize) < sl_len {
            change.range.start.character as usize
        } else {
            sl_len
        };
        let ec = if (change.range.end.character as usize) < el_len {
            change.range.end.character as usize
        } else {
            el_len
        };
        let tc = chars_of(change.text.as_str());
        let mut x: Vec<char> = Vec::new();
        push_range(&mut x, &self.lines[sl], 0, sc);
        push_range(&mut x, &tc, 0, tc.len());
        push_range(&mut x, &self.lines[el], ec, el_len);
        proof {
            assert(x@ =~= ls[sl as int].take(sc as int) + change.text@ + ls[el as int].skip(
                ec as int,
            ));
        }
        let mut tail = self.lines.split_off(el + 1);
        self.lines.truncate(sl);
        proof {
            assert(lines_view(self.lines@) =~= ls.take(sl as int));
            assert(lines_view(tail@) =~= ls.skip(el + 1));
        }
        push_lines_of(&mut self.lines, &x);
        self.lines.append(&mut tail);
        proof {
            let nl = lines_of(x@);
            assert(self@ =~= ls.take(sl as int) + nl + ls.skip(el + 1));
            lemma_lines_of_valid(x@);
            lemma_lines_of_len(x@);
            assert forall|j: int| 0 <= j < self@.len() implies #[trigger] no_newline(self@[j]) by {
                if j < sl {
                    assert(self@[j] == ls[j]);
                    assert(no_newline(ls[j]));
                } else if j < sl + nl.len() {
                    assert(self@[j] == nl[j - sl]);
                    assert(no_newline(nl[j - sl]));
                } else {
                    assert(self@[j] == ls[j - sl - nl.len() + el + 1]);
                    assert(no_newline(ls[j - sl - nl.len() + el + 1]));
                }
            }
        }
    }

    /// Whether the UTF-16 column of `position` fits the protocol's 32-bit
    /// columns.
    pub fn position_fits(&self, position: LspPosition) -> (res: bool)
        ensures
            res == utf16_fits(self@, position),
    {
        let l = position.line as usize;
        let k = position.character as usize;
        if l >= self.lines.len() {
            proof {
                assert(line_or_empty(self@, l as int).take(0) =~= Seq::<char>::empty());
            }
            return true;
        }
        let line = &self.lines[l];
        let ghost s = line@;
        proof {
            assert(s == self@[l as int]);
            assert(line_or_empty(self@, l as int) == s);
        }
        let n = line.len();
        let stop = if k < n {
            k
        } else {
            n
        };
        let mut i: usize = 0;
        let mut sum: u64 = 0;
        proof {
            assert(s.take(0) =~= Seq::<char>::empty());
        }
        while i < stop
            invariant
                s == line@,
                n == s.len(),
                stop <= n,
                stop as int == min_int(k as int, n as int),
                i <= stop,
                sum == utf16_len(s.take(i as int)),
                sum <= u32::MAX,
                line_or_empty(self@, position.line as int) == s,
                k == position.character,
            decreases stop - i,
        {
            proof {
                lemma_prefix_step(s, i as int);
            }
            let next = sum + char_utf16_width(line[i]) as u64;
            if next > 0xFFFF_FFFFu64 {
                proof {
                    let t = s.take(stop as int);
                    lemma_prefix_step(t, i as int);
                    assert(t.take(i + 1) =~= s.take(i + 1));
                }
                return false;
            }
            sum = next;
            i = i + 1;
        }
        true
    }

    /// `position` with its column counted in UTF-16 code units, as the
    /// protocol counts.  A line past the end counts as empty.
    pub fn to_utf16_position(&self, position: LspPosition) -> (res: LspPosition)
        requires
            utf16_fits(self@, position),
        ensures
            res.line == position.line,
            res.character == utf16_column(self@, position),
    {
        let l = position.line as usize;
        let k = position.character as usize;
        if l >= self.lines.len() {
            proof {
                assert(line_or_empty(self@, l as int).take(0) =~= Seq::<char>::empty());
            }
            return LspPosition { line: position.line, character: 0 };
        }
        let line = &self.lines[l];
        let ghost s = line@;
        proof {
            assert(s == self@[l as int]);
            assert(line_or_empty(self@, l as int) == s);
        }
        let n = line.len();
        let stop = if k < n {
            k
        } else {
            n
        };
        let mut i: usize = 0;
        let mut sum: u32 = 0;
        proof {
            assert(s.take(0) =~= Seq::<char>::empty());
        }
        while i < stop
            invariant
                s == line@,
                n == s.len(),
                stop <= n,
                stop as int == min_int(k as int, n as int),
                utf16_len(s.take(stop as int)) <= u32::MAX,
                i <= stop,
                sum == utf16_len(s.take(i as int)),
            decreases stop - i,
        {
            proof {
                lemma_prefix_step(s, i as int);
                lemma_prefix_step(s.take(stop as int), i as int);
                assert(s.take(stop as int).take(i + 1) =~= s.take(i + 1));
                assert(s.take(stop as int).take(i as int) =~= s.take(i as int));
                assert(s.take(stop as int)[i as int] == s[i as int]);
            }
            sum = sum + char_utf16_width(line[i]);
            i = i + 1;
        }
        LspPosition { line: position.line, character: sum }
    }

    /// Applies `changes` in order, and gives the range of each with its
    /// columns counted in UTF-16 code units in the document it applied to.
    pub fn apply_changes(&mut self, changes: &Vec<LspTextChange>) -> (res: Vec<LspRange>)
        requires
            old(self).wf(),
            changes_fit(old(self)@, changes@),
        ensures
            final(self)@ == after_changes(old(self)@, changes@),
            final(self).wf(),
            res@.len() == changes@.len(),
            forall|i: int|
                0 <= i < changes@.len() ==> #[trigger] res@[i] == utf16_range(
                    after_changes(old(self)@, changes@.take(i)),
                    changes@[i].range,
                ),
    {
        let ghost ls = self@;
        let mut out: Vec<LspRange> = Vec::new();
        let n = changes.len();
        let mut i: usize = 0;
        proof {
            assert(changes@.take(0) =~= Seq::<LspTextChange>::empty());
        }
        while i < n
            invariant
                n == changes@.len(),
                i <= n,
                self.wf(),
                changes_fit(ls, changes@),
                self@ == after_changes(ls, changes@.take(i as int)),
                out@.len() == i,
                forall|j: int|
                    0 <= j < i ==> #[trigger] out@[j] == utf16_range(
                        after_changes(ls, changes@.take(j)),
                        changes@[j].range,
                    ),
            decreases n - i,
        {
            let c = &changes[i];
            proof {
                lemma_changes_fit_prefix(ls, changes@, i as int + 1);
                assert(changes@.take(i + 1).drop_last() =~= changes@.take(i as int));
                assert(changes@.take(i + 1).last() == changes@[i as int]);
            }
            let start = self.to_utf16_position(c.range.start);
            let end = self.to_utf16_position(c.range.end);
            out.push(LspRange { start, end });
            self.apply_change(c);
            i = i + 1;
        }
        proof {
            assert(changes@.take(n as int) =~= changes@);
        }
        out
    }

    /// The number of lines.
    pub fn line_count(&self) -> (n: usize)
        ensures
            n == self@.len(),
    {
        self.lines.len()
    }

    /// The lines, as strings.
    pub fn lines(&self) -> (res: Vec<String>)
        ensures
            res@.len() == self@.len(),
            forall|i: int| 0 <= i < res@.len() ==> #[trigger] res@[i]@ == self@[i],
    {
        let mut out: Vec<String> = Vec::new();
        let n = self.lines.len();
        let mut i: usize = 0;
        while i < n
            invariant
                n == self@.len(),
                i <= n,
                out@.len() == i,
                forall|j: int| 0 <= j < i ==> #[trigger] out@[j]@ == self@[j],
            decreases n - i,
        {
            out.push(string_from_chars(self.lines[i].as_slice()));
            i = i + 1;
        }
        out
    }
}

proof fn lemma_changes_fit_prefix(ls: Seq<Seq<char>>, cs: Seq<LspTextChange>, k: int)
    requires
        changes_fit(ls, cs),
        0 <= k <= cs.len(),
    ensures
        changes_fit(ls, cs.take(k)),
    decreases cs.len(),
{
    if k < cs.len() {
        lemma_changes_fit_prefix(ls, cs.drop_last(), k);
        assert(cs.drop_last().take(k) =~= cs.take(k));
    } else {
        assert(cs.take(k) =~= cs);
    }
}

/// The mirror follows the editor: replacing a range whose ends are places
/// of the lines, in order, changes the mirror's lines exactly as the
/// editor's buffer changes.
pub proof fn lemma_change_matches_edit(ls: Seq<Seq<char>>, r: LspRange, t: Seq<char>)
    requires
        valid_lines(ls),
        valid_pos(ls, r.start.line as int, r.start.character as int),
        valid_pos(ls, r.end.line as int, r.end.character as int),
        pos_le(r.start.line as int, r.start.character as int, r.end.line as int, r.end.character as int),
    ensures
        range_ok(ls, r),
        changed_lines(ls, r, t) == replace_lines(
            ls,
            r.start.line as int,
            r.start.character as int,
            r.end.line as int,
            r.end.character as int,
            t,
        ),
{
}

/// A character that is not in a text is in none of its lines.
proof fn lemma_lines_of_avoid(t: Seq<char>, c: char)
    requires
        !t.contains(c),
    ensures
        forall|i: int| 0 <= i < lines_of(t).len() ==> !(#[trigger] lines_of(t)[i]).contains(c),
    decreases t.len(),
{
    lemma_lines_of_len(t);
    if t.len() > 0 {
        let p = t.drop_last();
        assert forall|j: int| 0 <= j < p.len() implies p[j] != c by {
            assert(p[j] == t[j]);
        }
        lemma_lines_of_avoid(p, c);
        lemma_lines_of_push(p, t.last());
        assert(p.push(t.last()) =~= t);
        lemma_lines_of_len(p);
        let lp = lines_of(p);
        let lt = lines_of(t);
        assert forall|i: int| 0 <= i < lt.len() implies !(#[trigger] lt[i]).contains(c) by {
            if t.last() == '\n' {
                if i < lp.len() {
                    assert(lt[i] == lp[i]);
                } else {
                    assert(lt[i] =~= Seq::<char>::empty());
                }
            } else {
                if i == lp.len() - 1 {
                    assert(lt[i] == lp[i].push(t.last()));
                    assert(!lp[i].contains(c));
                    assert(t.last() == t[t.len() - 1]);
                    assert forall|k: int| 0 <= k < lt[i].len() implies lt[i][k] != c by {
                        if k < lp[i].len() {
                            assert(lt[i][k] == lp[i][k]);
                        }
                    }
                } else {
                    assert(lt[i] == lp[i]);
                }
            }
        }
    }
}

/// For a text without carriage returns that does not end with a newline,
/// the mirror holds the same lines as the editor's buffer.
pub proof fn lemma_mirror_lines(t: Seq<char>)
    requires
        !t.contains('\r'),
        t.len() == 0 || t.last() != '\n',
    ensures
        text_lines(t) == lines_of(t),
{
    lemma_lines_of_len(t);
    if t.len() > 0 {
        lemma_lines_of_avoid(t, '\r');
        let p = lines_of(t);
        assert forall|j: int| 0 <= j < p.len() implies #[trigger] strip_cr(p[j]) == p[j] by {
            if p[j].len() > 0 {
                assert(p[j].last() == p[j][p[j].len() - 1]);
            }
        }
        assert(text_lines(t) =~= p);
    } else {
        assert(lines_of(t) == seq![Seq::<char>::empty()]);
    }
}

proof fn lemma_lines_no_cr(t: Seq<char>)
    requires
        !t.contains('\r'),
    ensures
        forall|j: int| 0 <= j < lines_of(t).len() ==> !(#[trigger] lines_of(t)[j]).contains('\r'),
    decreases t.len(),
{
    lemma_lines_of_len(t);
    if t.len() > 0 {
        let p = t.drop_last();
        let c = t.last();
        assert(!p.contains('\r')) by {
            if p.contains('\r') {
                let k = choose|k: int| 0 <= k < p.len() && p[k] == '\r';
                assert(t[k] == '\r');
            }
        }
        assert(c != '\r') by {
            assert(t[t.len() - 1] == c);
        }
        lemma_lines_no_cr(p);
        lemma_lines_of_push(p, c);
        lemma_lines_of_len(p);
        assert(p.push(c) =~= t);
        let prev = lines_of(p);
        let cur = lines_of(t);
        assert forall|j: int| 0 <= j < cur.len() implies !(#[trigger] cur[j]).contains('\r') by {
            if c != '\n' && j == prev.len() - 1 {
                assert(cur[j] == prev[j].push(c));
                assert(!prev[j].contains('\r'));
                if cur[j].contains('\r') {
                    let k = choose|k: int| 0 <= k < cur[j].len() && cur[j][k] == '\r';
                    if k < prev[j].len() {
                        assert(prev[j][k] == '\r');
                    }
                }
            } else if j < prev.len() {
                assert(cur[j] == prev[j]);
                assert(!prev[j].contains('\r'));
            }
        }
    }
}

/// A text without carriage returns and without a final newline is given
/// back by joining the lines that `from_text` makes of it.
pub proof fn lemma_text_lines_join(t: Seq<char>)
    requires
        !t.contains('\r'),
        t.len() == 0 || t.last() != '\n',
    ensures
        text_of(text_lines(t)) == t,
{
    if t.len() == 0 {
        assert(text_lines(t) =~= lines_of(t));
    } else {
        lemma_lines_no_cr(t);
        let p = lines_of(t);
        lemma_lines_of_len(t);
        assert forall|j: int| 0 <= j < p.len() implies strip_cr(#[trigger] p[j]) == p[j] by {
            if p[j].len() > 0 && p[j].last() == '\r' {
                assert(p[j].contains('\r'));
            }
        }
        assert(text_lines(t) =~= p);
    }
    lemma_flat_lines_of(t);
    assert(t.push('\n').drop_last() =~= t);
}

} // verus!
