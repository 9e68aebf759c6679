//! The line model of a text: a text is split at every `'\n'` into lines.
//!
//! A sequence of lines is flattened by writing each line followed by a
//! newline.  Flattening and splitting are inverse to each other, which is
//! what lets every edit of the buffer be described as a splice of the
//! flattened text.

use vstd::prelude::*;

verus! {

/// The lines of `t`: the maximal pieces between newline characters.
/// An empty text has one empty line; a trailing newline ends in an empty line.
pub open spec fn lines_of(t: Seq<char>) -> Seq<Seq<char>>
    decreases t.len(),
{
    if t.len() == 0 {
        seq![Seq::<char>::empty()]
    } else {
        let prev = lines_of(t.drop_last());
        if t.last() == '\n' {
            prev.push(Seq::<char>::empty())
        } else {
            prev.update(prev.len() - 1, prev.last().push(t.last()))
        }
    }
}

/// Every line written out followed by a newline.
pub open spec fn flat(ls: Seq<Seq<char>>) -> Seq<char>
    decreases ls.len(),
{
    if ls.len() == 0 {
        Seq::<char>::empty()
    } else {
        flat(ls.drop_last()) + ls.last() + seq!['\n']
    }
}

/// `s` holds no newline character.
pub open spec fn no_newline(s: Seq<char>) -> bool {
    forall|j: int| 0 <= j < s.len() ==> s[j] != '\n'
}

/// A well-formed sequence of lines: at least one line, none holding a newline.
pub open spec fn valid_lines(ls: Seq<Seq<char>>) -> bool {
    &&& ls.len() >= 1
    &&& forall|i: int| 0 <= i < ls.len() ==> #[trigger] no_newline(ls[i])
}

/// The text that the lines stand for (lines joined by newlines).
pub open spec fn text_of(ls: Seq<Seq<char>>) -> Seq<char> {
    flat(ls).drop_last()
}

pub proof fn lemma_lines_of_push(t: Seq<char>, c: char)
    ensures
        lines_of(t.push(c)) == if c == '\n' {
            lines_of(t).push(Seq::<char>::empty())
        } else {
            lines_of(t).update(lines_of(t).len() - 1, lines_of(t).last().push(c))
        },
{
    assert(t.push(c).drop_last() =~= t);
    assert(t.push(c).last() == c);
}

pub proof fn lemma_lines_of_len(t: Seq<char>)
    ensures
        lines_of(t).len() >= 1,
    decreases t.len(),
{
    if t.len() > 0 {
        lemma_lines_of_len(t.drop_last());
    }
}

/// No line produced by splitting holds a newline.
pub proof fn lemma_lines_of_valid(t: Seq<char>)
    ensures
        valid_lines(lines_of(t)),
    decreases t.len(),
{
    if t.len() > 0 {
        let p = t.drop_last();
        lemma_lines_of_valid(p);
        lemma_lines_of_push(p, t.last());
        assert(p.push(t.last()) =~= t);
        let prev = lines_of(p);
        let cur = lines_of(t);
        if t.last() == '\n' {
            assert forall|i: int| 0 <= i < cur.len() implies #[trigger] no_newline(cur[i]) by {
                if i < prev.len() {
                    assert(no_newline(prev[i]));
                }
            }
        } else {
            assert forall|i: int| 0 <= i < cur.len() implies #[trigger] no_newline(cur[i]) by {
                assert(no_newline(prev[i]));
                if i == prev.len() - 1 {
                    assert(cur[i] == prev[i].push(t.last()));
                }
            }
        }
    }
}

/// A text without newline is a single line.
pub proof fn lemma_lines_of_plain(v: Seq<char>)
    requires
        no_newline(v),
    ensures
        lines_of(v) == seq![v],
    decreases v.len(),
{
    if v.len() > 0 {
        let p = v.drop_last();
        assert(no_newline(p));
        lemma_lines_of_plain(p);
        lemma_lines_of_push(p, v.last());
        assert(p.push(v.last()) =~= v);
        assert(lines_of(v) =~= seq![v]);
    } else {
        assert(v =~= Seq::<char>::empty());
    }
}

/// Splitting a concatenation: the last line of `a` and the first line of `b` merge.
pub proof fn lemma_lines_of_concat(a: Seq<char>, b: Seq<char>)
    ensures
        lines_of(a + b) == lines_of(a).drop_last() + seq![
            lines_of(a).last() + lines_of(b)[0],
        ] + lines_of(b).subrange(1, lines_of(b).len() as int),
    decreases b.len(),
{
    lemma_lines_of_len(a);
    lemma_lines_of_len(b);
    let la = lines_of(a);
    if b.len() == 0 {
        assert(a + b =~= a);
        assert(lines_of(b) == seq![Seq::<char>::empty()]);
        assert(la.last() + Seq::<char>::empty() =~= la.last());
        assert(la.drop_last() + seq![la.last()] =~= la);
        assert(lines_of(b).subrange(1, 1) =~= Seq::<Seq<char>>::empty());
        assert(la.drop_last() + seq![la.last() + lines_of(b)[0]] + lines_of(b).subrange(1, 1)
            =~= la);
    } else {
        let bp = b.drop_last();
        let c = b.last();
        lemma_lines_of_concat(a, bp);
        lemma_lines_of_len(bp);
        assert(a + b =~= (a + bp).push(c));
        assert(bp.push(c) =~= b);
        lemma_lines_of_push(a + bp, c);
        lemma_lines_of_push(bp, c);
        let lb = lines_of(bp);
        let lab = lines_of(a + bp);
        if c == '\n' {
            assert(lines_of(b) == lb.push(Seq::<char>::empty()));
            if lb.len() == 1 {
                assert(lines_of(b).subrange(1, lines_of(b).len() as int) =~= seq![
                    Seq::<char>::empty(),
                ]);
                assert(lb.subrange(1, 1) =~= Seq::<Seq<char>>::empty());
            }
            assert(lines_of(b).subrange(1, lines_of(b).len() as int) =~= lb.subrange(
                1,
                lb.len() as int,
            ).push(Seq::<char>::empty()));
            assert(lines_of(a + b) =~= la.drop_last() + seq![la.last() + lines_of(b)[0]]
                + lines_of(b).subrange(1, lines_of(b).len() as int));
        } else {
            assert(lines_of(b) == lb.update(lb.len() - 1, lb.last().push(c)));
            if lb.len() == 1 {
                assert(la.last() + lb[0].push(c) =~= (la.last() + lb[0]).push(c));
                assert(lines_of(a + b) =~= la.drop_last() + seq![la.last() + lines_of(b)[0]]
                    + lines_of(b).subrange(1, lines_of(b).len() as int));
            } else {
                assert(lines_of(b).subrange(1, lines_of(b).len() as int) =~= lb.subrange(
                    1,
                    lb.len() as int,
                ).update(lb.len() - 2, lb.last().push(c)));
                assert(lines_of(a + b) =~= la.drop_last() + seq![la.last() + lines_of(b)[0]]
                    + lines_of(b).subrange(1, lines_of(b).len() as int));
            }
        }
    }
}

pub proof fn lemma_flat_concat(x: Seq<Seq<char>>, y: Seq<Seq<char>>)
    ensures
        flat(x + y) == flat(x) + flat(y),
    decreases y.len(),
{
    if y.len() == 0 {
        assert(x + y =~= x);
        assert(flat(x) + flat(y) =~= flat(x));
    } else {
        let yp = y.drop_last();
        lemma_flat_concat(x, yp);
        assert((x + y).drop_last() =~= x + yp);
        assert((x + y).last() == y.last());
        assert(flat(x + y) =~= flat(x) + flat(y));
    }
}

/// Flattening then splitting gives the lines back, followed by an empty line.
pub proof fn lemma_lines_of_flat(m: Seq<Seq<char>>)
    requires
        forall|i: int| 0 <= i < m.len() ==> #[trigger] no_newline(m[i]),
    ensures
        lines_of(flat(m)) == m.push(Seq::<char>::empty()),
    decreases m.len(),
{
    if m.len() == 0 {
        assert(flat(m) =~= Seq::<char>::empty());
        assert(m.push(Seq::<char>::empty()) =~= seq![Seq::<char>::empty()]);
    } else {
        let mp = m.drop_last();
        let x = m.last();
        assert(no_newline(m[m.len() - 1]));
        assert forall|i: int| 0 <= i < mp.len() implies #[trigger] no_newline(mp[i]) by {
            assert(no_newline(m[i]));
        }
        lemma_lines_of_flat(mp);
        lemma_lines_of_plain(x);
        lemma_lines_of_concat(flat(mp), x);
        let body = flat(mp) + x;
        assert(lines_of(body) =~= mp.push(x));
        assert(flat(m) =~= body.push('\n'));
        lemma_lines_of_push(body, '\n');
        assert(mp.push(x) =~= m);
    }
}

/// Splitting then flattening gives the text back with a final newline.
pub proof fn lemma_flat_lines_of(t: Seq<char>)
    ensures
        flat(lines_of(t)) == t.push('\n'),
    decreases t.len(),
{
    if t.len() == 0 {
        let one = seq![Seq::<char>::empty()];
        assert(lines_of(t) == one);
        assert(one.drop_last() =~= Seq::<Seq<char>>::empty());
        assert(flat(one) == flat(one.drop_last()) + one.last() + seq!['\n']);
        assert(flat(one) =~= seq!['\n']);
        assert(t.push('\n') =~= seq!['\n']);
    } else {
        let p = t.drop_last();
        let c = t.last();
        lemma_flat_lines_of(p);
        lemma_lines_of_len(p);
        lemma_lines_of_push(p, c);
        assert(p.push(c) =~= t);
        let lp = lines_of(p);
        if c == '\n' {
            assert(lines_of(t).drop_last() =~= lp);
            assert(flat(lines_of(t)) =~= t.push('\n'));
        } else {
            let lt = lines_of(t);
            assert(lt.drop_last() =~= lp.drop_last());
            assert(flat(lp) == flat(lp.drop_last()) + lp.last() + seq!['\n']);
            let x = flat(lp.drop_last()) + lp.last();
            assert((x + seq!['\n']).drop_last() =~= x);
            assert(p.push('\n').drop_last() =~= p);
            assert(x =~= p);
            assert(flat(lt) =~= t.push('\n'));
        }
    }
}

/// Well-formed lines are determined by the text they stand for.
pub proof fn lemma_lines_unique(a: Seq<Seq<char>>, b: Seq<Seq<char>>)
    requires
        valid_lines(a),
        valid_lines(b),
        flat(a) == flat(b),
    ensures
        a == b,
{
    lemma_lines_of_flat(a);
    lemma_lines_of_flat(b);
    assert(a =~= a.push(Seq::<char>::empty()).drop_last());
    assert(b =~= b.push(Seq::<char>::empty()).drop_last());
}

/// Well-formed lines are the split of their text.
pub proof fn lemma_lines_of_text(ls: Seq<Seq<char>>)
    requires
        valid_lines(ls),
    ensures
        lines_of(text_of(ls)) == ls,
        flat(ls) == text_of(ls).push('\n'),
{
    lemma_lines_of_flat(ls.drop_last());
    assert forall|i: int| 0 <= i < ls.drop_last().len() implies #[trigger] no_newline(
        ls.drop_last()[i],
    ) by {
        assert(no_newline(ls[i]));
    }
    assert(no_newline(ls[ls.len() - 1]));
    lemma_lines_of_plain(ls.last());
    lemma_lines_of_concat(flat(ls.drop_last()), ls.last());
    assert(ls.drop_last().push(ls.last()) =~= ls);
    assert(text_of(ls) =~= flat(ls.drop_last()) + ls.last());
    assert(lines_of(text_of(ls)) =~= ls);
    assert(flat(ls) =~= text_of(ls).push('\n'));
}


/// `(line, col)` names a place in the lines: an existing line and a column
/// from 0 up to the line's length.
pub open spec fn valid_pos(ls: Seq<Seq<char>>, line: int, col: int) -> bool {
    0 <= line < ls.len() && 0 <= col <= ls[line].len()
}

/// The offset of `(line, col)` in the flattened text.
pub open spec fn offset_of(ls: Seq<Seq<char>>, line: int, col: int) -> int {
    flat(ls.take(line)).len() + col
}

/// The place `(line, col)` reached after reading the first `o` characters
/// of the flattened text.
pub open spec fn pos_at(ls: Seq<Seq<char>>, o: int) -> (int, int) {
    let p = lines_of(flat(ls).take(o));
    (p.len() - 1, p.last().len() as int)
}

/// The place reached from `(line, col)` by walking over the characters of `t`.
pub open spec fn advance(line: int, col: int, t: Seq<char>) -> (int, int)
    decreases t.len(),
{
    if t.len() == 0 {
        (line, col)
    } else {
        let p = advance(line, col, t.drop_last());
        if t.last() == '\n' {
            (p.0 + 1, 0)
        } else {
            (p.0, p.1 + 1)
        }
    }
}

/// The lines after the text between `(sl, sc)` and `(el, ec)` is replaced by `t`.
pub open spec fn replace_lines(
    ls: Seq<Seq<char>>,
    sl: int,
    sc: int,
    el: int,
    ec: int,
    t: Seq<char>,
) -> Seq<Seq<char>> {
    ls.take(sl) + lines_of(ls[sl].take(sc) + t + ls[el].skip(ec)) + ls.skip(el + 1)
}

/// The text between `(sl, sc)` and `(el, ec)`.
pub open spec fn extract_text(ls: Seq<Seq<char>>, sl: int, sc: int, el: int, ec: int) -> Seq<
    char,
> {
    flat(ls).subrange(offset_of(ls, sl, sc), offset_of(ls, el, ec))
}

/// `(al, ac)` comes at or before `(bl, bc)`.
pub open spec fn pos_le(al: int, ac: int, bl: int, bc: int) -> bool {
    al < bl || (al == bl && ac <= bc)
}

pub proof fn lemma_flat_split(ls: Seq<Seq<char>>, l: int)
    requires
        0 <= l < ls.len(),
    ensures
        flat(ls) == flat(ls.take(l)) + ls[l] + seq!['\n'] + flat(ls.skip(l + 1)),
        flat(ls.take(l + 1)) == flat(ls.take(l)) + ls[l] + seq!['\n'],
{
    let a = ls.take(l);
    let b = seq![ls[l]];
    let c = ls.skip(l + 1);
    assert(ls =~= a + b + c);
    lemma_flat_concat(a + b, c);
    lemma_flat_concat(a, b);
    assert(b.drop_last() =~= Seq::<Seq<char>>::empty());
    assert(flat(b.drop_last()) == Seq::<char>::empty());
    assert(flat(b) == flat(b.drop_last()) + b.last() + seq!['\n']);
    assert(flat(b) =~= ls[l] + seq!['\n']);
    assert(ls.take(l + 1) =~= a + b);
    assert(flat(ls) =~= flat(a) + ls[l] + seq!['\n'] + flat(c));
}

pub proof fn lemma_flat_take_mono(ls: Seq<Seq<char>>, a: int, b: int)
    requires
        0 <= a <= b <= ls.len(),
    ensures
        flat(ls.take(b)) == flat(ls.take(a)) + flat(ls.subrange(a, b)),
        flat(ls.take(a)).len() <= flat(ls.take(b)).len(),
{
    assert(ls.take(b) =~= ls.take(a) + ls.subrange(a, b));
    lemma_flat_concat(ls.take(a), ls.subrange(a, b));
}

/// The flattened text splits at the offset of a valid place.
pub proof fn lemma_offset_split(ls: Seq<Seq<char>>, l: int, c: int)
    requires
        valid_pos(ls, l, c),
    ensures
        0 <= offset_of(ls, l, c) < flat(ls).len(),
        flat(ls).take(offset_of(ls, l, c)) == flat(ls.take(l)) + ls[l].take(c),
        flat(ls).skip(offset_of(ls, l, c)) == ls[l].skip(c) + seq!['\n'] + flat(ls.skip(l + 1)),
{
    lemma_flat_split(ls, l);
    let f = flat(ls);
    let pre = flat(ls.take(l));
    assert(f =~= pre + ls[l].take(c) + (ls[l].skip(c) + seq!['\n'] + flat(ls.skip(l + 1))));
    assert(f.take(offset_of(ls, l, c)) =~= pre + ls[l].take(c));
    assert(f.skip(offset_of(ls, l, c)) =~= ls[l].skip(c) + seq!['\n'] + flat(ls.skip(l + 1)));
}

/// The place at the offset of a valid place is that place.
pub proof fn lemma_pos_at_offset(ls: Seq<Seq<char>>, l: int, c: int)
    requires
        valid_lines(ls),
        valid_pos(ls, l, c),
    ensures
        pos_at(ls, offset_of(ls, l, c)) == (l, c),
        lines_of(flat(ls).take(offset_of(ls, l, c))) == ls.take(l).push(ls[l].take(c)),
{
    lemma_offset_split(ls, l, c);
    let m = ls.take(l);
    assert forall|i: int| 0 <= i < m.len() implies #[trigger] no_newline(m[i]) by {
        assert(no_newline(ls[i]));
    }
    lemma_lines_of_flat(m);
    assert(no_newline(ls[l]));
    let x = ls[l].take(c);
    assert(no_newline(x));
    lemma_lines_of_plain(x);
    lemma_lines_of_concat(flat(m), x);
    assert(m.push(Seq::<char>::empty()).drop_last() =~= m);
    assert(lines_of(flat(m) + x) =~= m.push(x));
}

/// Every offset short of the final newline names a valid place.
pub proof fn lemma_offset_of_pos_at(ls: Seq<Seq<char>>, o: int)
    requires
        valid_lines(ls),
        0 <= o < flat(ls).len(),
    ensures
        valid_pos(ls, pos_at(ls, o).0, pos_at(ls, o).1),
        offset_of(ls, pos_at(ls, o).0, pos_at(ls, o).1) == o,
{
    let f = flat(ls);
    let a = f.take(o);
    let b = f.skip(o);
    assert(a + b =~= f);
    lemma_lines_of_concat(a, b);
    lemma_lines_of_len(a);
    lemma_lines_of_len(b);
    lemma_lines_of_text(ls);
    let pa = lines_of(a);
    let pb = lines_of(b);
    let k = pa.len() - 1;
    // the whole text splits into the lines and a final empty line
    lemma_lines_of_flat(ls);
    assert(lines_of(f) == ls.push(Seq::<char>::empty()));
    let whole = ls.push(Seq::<char>::empty());
    assert(whole == pa.drop_last() + seq![pa.last() + pb[0]] + pb.subrange(1, pb.len() as int));
    // b is non-empty and ends with a newline, so it has at least two lines
    assert(b.len() >= 1);
    assert(f.last() == '\n') by {
        assert(f == flat(ls.drop_last()) + ls.last() + seq!['\n']);
    }
    assert(b.last() == '\n');
    lemma_lines_of_push(b.drop_last(), '\n');
    assert(b.drop_last().push('\n') =~= b);
    lemma_lines_of_len(b.drop_last());
    assert(pb.len() >= 2);
    assert(whole.len() == k + pb.len());
    assert(k < ls.len());
    assert(whole[k] == pa.last() + pb[0]);
    assert(ls[k] == pa.last() + pb[0]);
    assert(pa.drop_last() =~= ls.take(k)) by {
        assert forall|i: int| 0 <= i < k implies pa.drop_last()[i] == ls.take(k)[i] by {
            assert(whole[i] == pa.drop_last()[i]);
        }
    }
    // lengths
    lemma_flat_lines_of(a);
    assert(flat(pa) == flat(pa.drop_last()) + pa.last() + seq!['\n']);
    assert(flat(pa).len() == a.len() + 1);
    assert(flat(ls.take(k)).len() + pa.last().len() == o);
}

/// Walking over `t` from the place reached after `a` gives the place reached after `a + t`.
pub proof fn lemma_advance_lines(a: Seq<char>, t: Seq<char>)
    ensures
        ({
            let pa = lines_of(a);
            let pt = lines_of(a + t);
            advance(pa.len() - 1, pa.last().len() as int, t) == (
                pt.len() - 1,
                pt.last().len() as int,
            )
        }),
    decreases t.len(),
{
    lemma_lines_of_len(a);
    if t.len() == 0 {
        assert(a + t =~= a);
    } else {
        let tp = t.drop_last();
        let c = t.last();
        lemma_advance_lines(a, tp);
        assert(a + t =~= (a + tp).push(c));
        lemma_lines_of_push(a + tp, c);
        lemma_lines_of_len(a + tp);
    }
}

/// Replacing a range: the new lines are well formed, their text is the old
/// text with the range spliced out and `t` spliced in, the start stays in
/// place and walking over `t` from the start reaches the end of the insertion.
pub proof fn lemma_replace(
    ls: Seq<Seq<char>>,
    sl: int,
    sc: int,
    el: int,
    ec: int,
    t: Seq<char>,
)
    requires
        valid_lines(ls),
        valid_pos(ls, sl, sc),
        valid_pos(ls, el, ec),
        pos_le(sl, sc, el, ec),
    ensures
        ({
            let nl = replace_lines(ls, sl, sc, el, ec, t);
            let o = offset_of(ls, sl, sc);
            let f = flat(ls);
            let e = advance(sl, sc, t);
            &&& valid_lines(nl)
            &&& offset_of(ls, sl, sc) <= offset_of(ls, el, ec)
            &&& flat(nl) == f.take(o) + t + f.skip(offset_of(ls, el, ec))
            &&& valid_pos(nl, sl, sc)
            &&& offset_of(nl, sl, sc) == o
            &&& valid_pos(nl, e.0, e.1)
            &&& offset_of(nl, e.0, e.1) == o + t.len()
        }),
{
    let f = flat(ls);
    let o = offset_of(ls, sl, sc);
    let oe = offset_of(ls, el, ec);
    let x = ls[sl].take(sc) + t + ls[el].skip(ec);
    let lx = lines_of(x);
    let a = ls.take(sl);
    let c = ls.skip(el + 1);
    let nl = replace_lines(ls, sl, sc, el, ec, t);
    lemma_offset_split(ls, sl, sc);
    lemma_offset_split(ls, el, ec);
    // order of the offsets
    if sl < el {
        lemma_flat_take_mono(ls, sl + 1, el);
        lemma_flat_split(ls, sl);
    }
    assert(o <= oe);
    // well-formedness
    lemma_lines_of_valid(x);
    lemma_lines_of_len(x);
    assert(valid_lines(nl)) by {
        assert forall|i: int| 0 <= i < nl.len() implies #[trigger] no_newline(nl[i]) by {
            if i < sl {
                assert(nl[i] == ls[i]);
                assert(no_newline(ls[i]));
            } else if i < sl + lx.len() {
                assert(nl[i] == lx[i - sl]);
                assert(no_newline(lx[i - sl]));
            } else {
                assert(nl[i] == ls[i - sl - lx.len() + el + 1]);
                assert(no_newline(ls[i - sl - lx.len() + el + 1]));
            }
        }
    }
    // the flattened text
    lemma_flat_concat(a + lx, c);
    lemma_flat_concat(a, lx);
    lemma_flat_lines_of(x);
    assert(f.take(o) == flat(a) + ls[sl].take(sc));
    assert(f.skip(oe) == ls[el].skip(ec) + seq!['\n'] + flat(c));
    assert(flat(nl) =~= f.take(o) + t + f.skip(oe));
    // the start keeps its offset
    assert(nl.take(sl) =~= a);
    assert(no_newline(ls[sl]));
    assert(no_newline(ls[sl].take(sc)));
    lemma_lines_of_plain(ls[sl].take(sc));
    lemma_lines_of_concat(ls[sl].take(sc), t + ls[el].skip(ec));
    assert(x =~= ls[sl].take(sc) + (t + ls[el].skip(ec)));
    lemma_lines_of_len(t + ls[el].skip(ec));
    assert(lx[0] == ls[sl].take(sc) + lines_of(t + ls[el].skip(ec))[0]);
    assert(nl[sl] == lx[0]);
    assert(valid_pos(nl, sl, sc));
    assert(offset_of(nl, sl, sc) == o);
    // the end of the insertion
    let fn_ = flat(nl);
    lemma_pos_at_offset(nl, sl, sc);
    lemma_pos_at_offset(ls, sl, sc);
    assert(fn_.take(o) =~= f.take(o));
    assert(fn_.take(o + t.len()) =~= fn_.take(o) + t);
    lemma_advance_lines(fn_.take(o), t);
    assert(lines_of(fn_.take(o)) == nl.take(sl).push(nl[sl].take(sc)));
    assert(nl.take(sl).push(nl[sl].take(sc)).last() =~= ls[sl].take(sc));
    assert(advance(sl, sc, t) == pos_at(nl, o + t.len()));
    assert(fn_.len() == f.len() - (oe - o) + t.len());
    lemma_offset_of_pos_at(nl, o + t.len());
}

} // verus!
