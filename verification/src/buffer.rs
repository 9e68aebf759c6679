//! The text buffer: the document held as a vector of lines.

use vstd::prelude::*;

use crate::chars::{chars_of, string_from_chars};
use crate::lines::{
    extract_text, flat, lemma_flat_split, lemma_flat_take_mono, lemma_lines_of_len, lemma_lines_of_push,
    lemma_lines_of_valid, lemma_offset_split, lemma_replace, lines_of, offset_of, pos_le,
    replace_lines, text_of, valid_lines, valid_pos,
};

verus! {

/// The lines of a vector of character vectors, as sequences.
pub open spec fn lines_view(v: Seq<Vec<char>>) -> Seq<Seq<char>> {
    Seq::new(v.len(), |i: int| v[i]@)
}

/// Line-based text storage: the document is held as its lines, none of
/// which holds a newline character.
pub struct TextBuffer {
    lines: Vec<Vec<char>>,
}

impl View for TextBuffer {
    type V = Seq<Seq<char>>;

    closed spec fn view(&self) -> Seq<Seq<char>> {
        lines_view(self.lines@)
    }
}

proof fn lemma_lines_view_push(v: Seq<Vec<char>>, x: Vec<char>)
    ensures
        lines_view(v.push(x)) == lines_view(v).push(x@),
{
    assert(lines_view(v.push(x)) =~= lines_view(v).push(x@));
}

/// Splits `x` and appends its lines to `out`.
pub(crate) fn push_lines_of(out: &mut Vec<Vec<char>>, x: &Vec<char>)
    ensures
        lines_view(final(out)@) == lines_view(old(out)@) + lines_of(x@),
{
    let mut cur: Vec<char> = Vec::new();
    let n = x.len();
    let mut k: usize = 0;
    proof {
        assert(x@.take(0) =~= Seq::<char>::empty());
        assert(lines_of(Seq::<char>::empty()) == seq![Seq::<char>::empty()]);
        assert(cur@ =~= Seq::<char>::empty());
    }
    while k < n
        invariant
            n == x@.len(),
            k <= n,
            lines_view(out@) + seq![cur@] =~= lines_view(old(out)@) + lines_of(x@.take(k as int)),
        decreases n - k,
    {
        let c = x[k];
        proof {
            lemma_lines_of_len(x@.take(k as int));
            lemma_lines_of_push(x@.take(k as int), c);
            assert(x@.take(k as int).push(c) =~= x@.take(k + 1));
        }
        let ghost before = out@;
        let ghost cur_before = cur@;
        let ghost p = lines_of(x@.take(k as int));
        proof {
            assert(lines_view(before) + seq![cur_before] =~= lines_view(before).push(cur_before));
            assert(lines_view(old(out)@) + p =~= (lines_view(old(out)@) + p.drop_last()).push(
                p.last(),
            ));
            let lhs = lines_view(before).push(cur_before);
            let rhs = (lines_view(old(out)@) + p.drop_last()).push(p.last());
            assert(lhs == rhs);
            assert(lhs.drop_last() =~= lines_view(before));
            assert(rhs.drop_last() =~= lines_view(old(out)@) + p.drop_last());
            assert(lhs.last() == cur_before);
            assert(lines_view(before) =~= lines_view(old(out)@) + p.drop_last());
            assert(cur_before == p.last());
        }
        if c == '\n' {
            let mut done: Vec<char> = Vec::new();
            std::mem::swap(&mut cur, &mut done);
            out.push(done);
            proof {
                lemma_lines_view_push(before, done);
                assert(cur@ =~= Seq::<char>::empty());
                assert(lines_of(x@.take(k + 1)) == p.push(Seq::<char>::empty()));
                assert(lines_view(out@) + seq![cur@] =~= lines_view(old(out)@) + lines_of(
                    x@.take(k + 1),
                ));
            }
        } else {
            cur.push(c);
            proof {
                assert(lines_of(x@.take(k + 1)) == p.update(p.len() - 1, p.last().push(c)));
                assert(lines_view(out@) + seq![cur@] =~= lines_view(old(out)@) + lines_of(
                    x@.take(k + 1),
                ));
            }
        }
        k = k + 1;
    }
    let ghost before = out@;
    out.push(cur);
    proof {
        lemma_lines_view_push(before, cur);
        assert(x@.take(n as int) =~= x@);
        assert(lines_view(out@) =~= lines_view(old(out)@) + lines_of(x@));
    }
}

/// Appends the characters `v[from..to]` to `out`.
pub(crate) fn push_range(out: &mut Vec<char>, v: &Vec<char>, from: usize, to: usize)
    requires
        from <= to <= v@.len(),
    ensures
        final(out)@ == old(out)@ + v@.subrange(from as int, to as int),
{
    let mut k = from;
    while k < to
        invariant
            from <= k <= to <= v@.len(),
            out@ == old(out)@ + v@.subrange(from as int, k as int),
        decreases to - k,
    {
        out.push(v[k]);
        proof {
            assert(v@.subrange(from as int, k + 1) =~= v@.subrange(from as int, k as int).push(
                v@[k as int],
            ));
        }
        k = k + 1;
    }
}

impl TextBuffer {
    /// Well-formed: at least one line, and no line holds a newline.
    pub open spec fn wf(&self) -> bool {
        valid_lines(self@)
    }

    /// A buffer holding `content`, split at its newlines.
    pub fn new(content: &str) -> (res: Self)
        ensures
            res@ == lines_of(content@),
            res.wf(),
    {
        let cs = chars_of(content);
        let mut out: Vec<Vec<char>> = Vec::new();
        push_lines_of(&mut out, &cs);
        proof {
            assert(lines_view(Seq::<Vec<char>>::empty()) + lines_of(cs@) =~= lines_of(cs@));
            lemma_lines_of_valid(content@);
        }
        TextBuffer { lines: out }
    }

    /// Line counts and line lengths fit in a machine word.
    pub proof fn lemma_bounded(&self)
        ensures
            self@.len() <= usize::MAX,
            forall|i: int| 0 <= i < self@.len() ==> self@[i].len() <= usize::MAX,
    {
        assert forall|i: int| 0 <= i < self@.len() implies self@[i].len() <= usize::MAX by {
            assert(self@[i] == self.lines@[i]@);
            assert(self.lines@[i]@.len() == self.lines@[i].len());
        }
        assert(self.lines@.len() == self.lines.len());
    }

    /// The number of lines.
    pub fn line_count(&self) -> (n: usize)
        ensures
            n == self@.len(),
    {
        self.lines.len()
    }

    /// The length of line `i`, in characters.
    pub fn line_len(&self, i: usize) -> (n: usize)
        requires
            i < self@.len(),
        ensures
            n == self@[i as int].len(),
    {
        self.lines[i].len()
    }

    /// The characters of line `i`.
    pub fn line_chars(&self, i: usize) -> (res: &Vec<char>)
        requires
            i < self@.len(),
        ensures
            res@ == self@[i as int],
    {
        &self.lines[i]
    }

    /// Line `i` as a string.
    pub fn line(&self, i: usize) -> (res: String)
        requires
            i < self@.len(),
        ensures
            res@ == self@[i as int],
    {
        string_from_chars(self.lines[i].as_slice())
    }

    /// The character at `(line, col)`.
    pub fn char_at(&self, line: usize, col: usize) -> (c: char)
        requires
            line < self@.len(),
            col < self@[line as int].len(),
        ensures
            c == self@[line as int][col as int],
    {
        self.lines[line][col]
    }

    /// The whole text: the lines joined by newlines.
    pub fn to_chars(&self) -> (res: Vec<char>)
        requires
            self.wf(),
        ensures
            res@ == text_of(self@),
    {
        let mut out: Vec<char> = Vec::new();
        let n = self.lines.len();
        let mut i: usize = 0;
        while i < n
            invariant
                n == self@.len(),
                i <= n,
                out@ == flat(self@.take(i as int)),
            decreases n - i,
        {
            let ln = &self.lines[i];
            push_range(&mut out, ln, 0, ln.len());
            out.push('\n');
            proof {
                lemma_flat_split(self@, i as int);
                assert(ln@.subrange(0, ln@.len() as int) =~= ln@);
            }
            i = i + 1;
        }
        proof {
            assert(self@.take(n as int) =~= self@);
        }
        out.pop();
        out
    }

    /// The whole text as a string.
    pub fn to_string(&self) -> (res: String)
        requires
            self.wf(),
        ensures
            res@ == text_of(self@),
    {
        let v = self.to_chars();
        string_from_chars(v.as_slice())
    }

    /// The text between two places.
    pub fn extract(&self, sl: usize, sc: usize, el: usize, ec: usize) -> (res: Vec<char>)
        requires
            self.wf(),
            valid_pos(self@, sl as int, sc as int),
            valid_pos(self@, el as int, ec as int),
            pos_le(sl as int, sc as int, el as int, ec as int),
        ensures
            res@ == extract_text(self@, sl as int, sc as int, el as int, ec as int),
    {
        let ghost ls = self@;
        let ghost f = flat(ls);
        let ghost o = offset_of(ls, sl as int, sc as int);
        proof {
            lemma_offset_split(ls, sl as int, sc as int);
            lemma_offset_split(ls, el as int, ec as int);
            lemma_flat_split(ls, sl as int);
        }
        let mut out: Vec<char> = Vec::new();
        if sl == el {
            push_range(&mut out, &self.lines[sl], sc, ec);
            proof {
                assert(f.subrange(o, offset_of(ls, el as int, ec as int)) =~= ls[sl as int].subrange(
                    sc as int,
                    ec as int,
                ));
            }
            return out;
        }
        let first = &self.lines[sl];
        push_range(&mut out, first, sc, first.len());
        out.push('\n');
        let mut i = sl + 1;
        proof {
            lemma_flat_take_mono(ls, sl as int + 1, el as int);
            assert(flat(ls.take(sl + 1)) == flat(ls.take(sl as int)) + ls[sl as int] + seq!['\n']);
            assert(out@ =~= f.subrange(o, flat(ls.take(sl + 1)).len() as int));
        }
        while i < el
            invariant
                sl < i <= el < ls.len(),
                ls == self@,
                f == flat(ls),
                o == offset_of(ls, sl as int, sc as int),
                o <= flat(ls.take(i as int)).len() <= f.len(),
                f.take(flat(ls.take(i as int)).len() as int) == flat(ls.take(i as int)),
                out@ == f.subrange(o, flat(ls.take(i as int)).len() as int),
            decreases el - i,
        {
            let ln = &self.lines[i];
            push_range(&mut out, ln, 0, ln.len());
            out.push('\n');
            proof {
                lemma_flat_split(ls, i as int);
                lemma_flat_take_mono(ls, i as int + 1, ls.len() as int);
                assert(ls.take(ls.len() as int) =~= ls);
                let a = flat(ls.take(i as int)).len() as int;
                let b = flat(ls.take(i + 1)).len() as int;
                assert(f.take(b) =~= flat(ls.take(i + 1)));
                assert(f.subrange(a, b) =~= ls[i as int] + seq!['\n']) by {
                    assert(f.take(b).subrange(a, b) =~= f.subrange(a, b));
                }
                assert(ln@.subrange(0, ln@.len() as int) =~= ln@);
                assert(out@ =~= f.subrange(o, b));
            }
            i = i + 1;
        }
        push_range(&mut out, &self.lines[el], 0, ec);
        proof {
            let a = flat(ls.take(el as int)).len() as int;
            let oe = offset_of(ls, el as int, ec as int);
            assert(f.take(oe) == flat(ls.take(el as int)) + ls[el as int].take(ec as int));
            assert(f.subrange(a, oe) =~= ls[el as int].take(ec as int)) by {
                assert(f.take(oe).subrange(a, oe) =~= f.subrange(a, oe));
            }
            assert(out@ =~= f.subrange(o, oe));
        }
        out
    }

    /// Replaces the text between two places by `t`.
    pub fn replace(&mut self, sl: usize, sc: usize, el: usize, ec: usize, t: &Vec<char>)
        requires
            old(self).wf(),
            valid_pos(old(self)@, sl as int, sc as int),
            valid_pos(old(self)@, el as int, ec as int),
            pos_le(sl as int, sc as int, el as int, ec as int),
        ensures
            final(self)@ == replace_lines(
                old(self)@,
                sl as int,
                sc as int,
                el as int,
                ec as int,
                t@,
            ),
            final(self).wf(),
    {
        let ghost ls = self@;
        let mut x: Vec<char> = Vec::new();
        push_range(&mut x, &self.lines[sl], 0, sc);
        push_range(&mut x, t, 0, t.len());
        let last = &self.lines[el];
        push_range(&mut x, last, ec, last.len());
        proof {
            assert(x@ =~= ls[sl as int].take(sc as int) + t@ + ls[el as int].skip(ec as int));
        }
        // keep the lines after the range, drop the range, then splice the new lines in
        let count = self.lines.len();
        assert(el < count);
        let mut tail = self.lines.split_off(el + 1);
        self.lines.truncate(sl);
        proof {
            assert(lines_view(self.lines@) =~= ls.take(sl as int));
            assert(lines_view(tail@) =~= ls.skip(el + 1));
        }
        push_lines_of(&mut self.lines, &x);
        self.lines.append(&mut tail);
        proof {
            assert(self@ =~= replace_lines(ls, sl as int, sc as int, el as int, ec as int, t@));
            lemma_replace(ls, sl as int, sc as int, el as int, ec as int, t@);
        }
    }
}

} // verus!
