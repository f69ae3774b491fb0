//! `Text` — multiline, aligned, optionally word-wrapped text in a
//! rectangle — and `Ascii`, pre-made ASCII art drawn verbatim.
use vstd::prelude::*;
use crate::ansi::{push_chars, str_chars};
use crate::buffer::{Buffer, Cell};
use crate::color::Color;
use crate::layout::{Align, Rect};
use crate::style::{plain_style, Style};

verus! {

/// The pieces of `s` between the occurrences of `sep`, as `str::split` gives them.
pub open spec fn split_on(s: Seq<char>, sep: char) -> Seq<Seq<char>>
    decreases s.len(),
{
    if s.len() == 0 {
        seq![seq![]]
    } else {
        let rest = split_on(s.drop_last(), sep);
        if s.last() == sep {
            rest.push(seq![])
        } else {
            rest.update(rest.len() - 1, rest.last().push(s.last()))
        }
    }
}

proof fn lemma_split_nonempty(s: Seq<char>, sep: char)
    ensures
        split_on(s, sep).len() >= 1,
    decreases s.len(),
{
    if s.len() > 0 {
        lemma_split_nonempty(s.drop_last(), sep);
    }
}

/// The views of a list of character vectors.
pub open spec fn views(v: Seq<Vec<char>>) -> Seq<Seq<char>> {
    v.map_values(|c: Vec<char>| c@)
}

/// A copy of `s`.
fn copy_chars(s: &[char]) -> (v: Vec<char>)
    ensures
        v@ == s@,
{
    let mut v: Vec<char> = Vec::new();
    let mut i: usize = 0;
    while i < s.len()
        invariant
            i <= s.len(),
            v@ == s@.subrange(0, i as int),
        decreases s.len() - i,
    {
        v.push(s[i]);
        i = i + 1;
    }
    assert(s@.subrange(0, i as int) =~= s@);
    v
}

/// `s[lo..hi]` as a new vector.
fn slice_chars(s: &[char], lo: usize, hi: usize) -> (v: Vec<char>)
    requires
        lo <= hi <= s.len(),
    ensures
        v@ == s@.subrange(lo as int, hi as int),
{
    let mut v: Vec<char> = Vec::new();
    let mut i: usize = lo;
    while i < hi
        invariant
            lo <= i <= hi,
            hi <= s.len(),
            v@ == s@.subrange(lo as int, i as int),
        decreases hi - i,
    {
        v.push(s[i]);
        i = i + 1;
    }
    v
}

/// Split `s` at every `sep`.
pub fn split_chars(s: &[char], sep: char) -> (parts: Vec<Vec<char>>)
    ensures
        views(parts@) == split_on(s@, sep),
{
    let mut done: Vec<Vec<char>> = Vec::new();
    let mut cur: Vec<char> = Vec::new();
    let mut i: usize = 0;
    while i < s.len()
        invariant
            i <= s.len(),
            views(done@).push(cur@) == split_on(s@.subrange(0, i as int), sep),
        decreases s.len() - i,
    {
        let ghost pre = s@.subrange(0, i as int);
        let ghost next = s@.subrange(0, i + 1);
        assert(next.drop_last() =~= pre);
        if s[i] == sep {
            let piece = copy_chars(cur.as_slice());
            done.push(piece);
            cur = Vec::new();
            assert(views(done@).push(cur@) =~= split_on(pre, sep).push(seq![]));
        } else {
            cur.push(s[i]);
            assert(views(done@).push(cur@) =~= split_on(pre, sep).update(
                split_on(pre, sep).len() - 1,
                split_on(pre, sep).last().push(s@[i as int]),
            ));
        }
        i = i + 1;
    }
    assert(s@.subrange(0, i as int) =~= s@);
    done.push(cur);
    assert(views(done@) =~= split_on(s@, sep));
    done
}

/// `cur` cut into lines of `width` while it is longer than that.
pub open spec fn chop(out: Seq<Seq<char>>, cur: Seq<char>, width: int) -> (Seq<Seq<char>>, Seq<char>)
    decreases cur.len(),
{
    if width > 0 && cur.len() > width {
        chop(out.push(cur.take(width)), cur.skip(width), width)
    } else {
        (out, cur)
    }
}

/// One word added to the finished lines `st.0` and the line in progress `st.1`:
/// it joins the line when it fits after a space, else it starts a new one.
pub open spec fn wrap_step(st: (Seq<Seq<char>>, Seq<char>), word: Seq<char>, width: int) -> (Seq<Seq<char>>, Seq<char>) {
    let (out, cur) = st;
    if cur.len() == 0 {
        chop(out, word, width)
    } else if cur.len() + 1 + word.len() <= width {
        chop(out, cur.push(' ') + word, width)
    } else {
        chop(out.push(cur), word, width)
    }
}

/// The lines finished and in progress after wrapping `words`.
pub open spec fn wrap_fold(words: Seq<Seq<char>>, width: int) -> (Seq<Seq<char>>, Seq<char>)
    decreases words.len(),
{
    if words.len() == 0 {
        (seq![], seq![])
    } else {
        wrap_step(wrap_fold(words.drop_last(), width), words.last(), width)
    }
}

/// `s` greedily word-wrapped to `width` columns: words are separated by
/// single spaces, and a word longer than a line is cut. A zero width leaves
/// `s` whole.
pub open spec fn wrap_spec(s: Seq<char>, width: int) -> Seq<Seq<char>> {
    if width == 0 {
        seq![s]
    } else {
        let (out, cur) = wrap_fold(split_on(s, ' '), width);
        if cur.len() > 0 {
            out.push(cur)
        } else {
            out
        }
    }
}

proof fn lemma_chop_fits(out: Seq<Seq<char>>, cur: Seq<char>, width: int)
    requires
        width > 0,
        forall|i: int| 0 <= i < out.len() ==> (#[trigger] out[i]).len() <= width,
    ensures
        forall|i: int| 0 <= i < chop(out, cur, width).0.len() ==> (#[trigger] chop(out, cur, width).0[i]).len() <= width,
        chop(out, cur, width).1.len() <= width,
    decreases cur.len(),
{
    if cur.len() > width {
        let o2 = out.push(cur.take(width));
        assert forall|i: int| 0 <= i < o2.len() implies (#[trigger] o2[i]).len() <= width by {
            if i < out.len() {
                assert(o2[i] == out[i]);
            }
        }
        lemma_chop_fits(o2, cur.skip(width), width);
    }
}

proof fn lemma_wrap_fold_fits(words: Seq<Seq<char>>, width: int)
    requires
        width > 0,
    ensures
        forall|i: int| 0 <= i < wrap_fold(words, width).0.len() ==> (#[trigger] wrap_fold(words, width).0[i]).len() <= width,
        wrap_fold(words, width).1.len() <= width,
    decreases words.len(),
{
    if words.len() > 0 {
        lemma_wrap_fold_fits(words.drop_last(), width);
        let (out, cur) = wrap_fold(words.drop_last(), width);
        let word = words.last();
        if cur.len() == 0 {
            lemma_chop_fits(out, word, width);
        } else if cur.len() + 1 + word.len() <= width {
            lemma_chop_fits(out, cur.push(' ') + word, width);
        } else {
            let o2 = out.push(cur);
            assert forall|i: int| 0 <= i < o2.len() implies (#[trigger] o2[i]).len() <= width by {
                if i < out.len() {
                    assert(o2[i] == out[i]);
                }
            }
            lemma_chop_fits(o2, word, width);
        }
    }
}

/// Wrapping to a positive width gives lines no longer than the width.
pub proof fn law_wrap_fits(s: Seq<char>, width: int)
    requires
        width > 0,
    ensures
        forall|i: int| 0 <= i < wrap_spec(s, width).len() ==> (#[trigger] wrap_spec(s, width)[i]).len() <= width,
{
    let words = split_on(s, ' ');
    lemma_wrap_fold_fits(words, width);
    let (out, cur) = wrap_fold(words, width);
    if cur.len() > 0 {
        assert forall|i: int| 0 <= i < out.push(cur).len() implies (#[trigger] out.push(cur)[i]).len() <= width by {
            if i < out.len() {
                assert(out.push(cur)[i] == out[i]);
            }
        }
    }
}

/// `s` with its spaces taken out.
pub open spec fn without_spaces(s: Seq<char>) -> Seq<char>
    decreases s.len(),
{
    if s.len() == 0 {
        s
    } else if s.last() == ' ' {
        without_spaces(s.drop_last())
    } else {
        without_spaces(s.drop_last()).push(s.last())
    }
}

/// The lines `ls` put end to end.
pub open spec fn joined(ls: Seq<Seq<char>>) -> Seq<char>
    decreases ls.len(),
{
    if ls.len() == 0 {
        seq![]
    } else {
        joined(ls.drop_last()) + ls.last()
    }
}

proof fn lemma_without_spaces_one(c: char)
    ensures
        without_spaces(seq![c]) == (if c == ' ' { Seq::<char>::empty() } else { seq![c] }),
{
    let t = seq![c];
    assert(t.len() == 1);
    assert(t.last() == c);
    assert(t.drop_last() =~= Seq::<char>::empty());
    assert(without_spaces(t.drop_last()) == t.drop_last());
    assert(Seq::<char>::empty().push(c) =~= t);
}

proof fn lemma_joined_one(l: Seq<char>)
    ensures
        joined(seq![l]) == l,
{
    let t = seq![l];
    assert(t.len() == 1);
    assert(t.last() == l);
    assert(t.drop_last() =~= Seq::<Seq<char>>::empty());
    assert(joined(t.drop_last()) == Seq::<char>::empty());
    assert(Seq::<char>::empty() + l =~= l);
}

proof fn lemma_without_spaces_add(a: Seq<char>, b: Seq<char>)
    ensures
        without_spaces(a + b) == without_spaces(a) + without_spaces(b),
    decreases b.len(),
{
    if b.len() == 0 {
        assert(a + b =~= a);
        assert(without_spaces(a) + without_spaces(b) =~= without_spaces(a));
    } else {
        assert((a + b).drop_last() =~= a + b.drop_last());
        assert((a + b).last() == b.last());
        lemma_without_spaces_add(a, b.drop_last());
        if b.last() != ' ' {
            assert(without_spaces(a) + without_spaces(b.drop_last()).push(b.last()) =~= (without_spaces(a)
                + without_spaces(b.drop_last())).push(b.last()));
        }
    }
}

proof fn lemma_split_joined(s: Seq<char>)
    ensures
        without_spaces(joined(split_on(s, ' '))) == without_spaces(s),
    decreases s.len(),
{
    if s.len() == 0 {
        assert(split_on(s, ' ') == seq![Seq::<char>::empty()]);
        lemma_joined_one(Seq::<char>::empty());
    } else {
        let rest = split_on(s.drop_last(), ' ');
        lemma_split_joined(s.drop_last());
        lemma_split_nonempty(s.drop_last(), ' ');
        if s.last() == ' ' {
            assert(rest.push(seq![]).drop_last() =~= rest);
            assert(joined(rest.push(seq![])) =~= joined(rest));
        } else {
            let c = s.last();
            let u = rest.update(rest.len() - 1, rest.last().push(c));
            assert(u.drop_last() =~= rest.drop_last());
            assert(joined(u) =~= joined(rest).push(c));
            lemma_without_spaces_add(joined(rest), seq![c]);
            assert(joined(rest).push(c) =~= joined(rest) + seq![c]);
            assert(seq![c].drop_last() =~= Seq::<char>::empty());
            lemma_without_spaces_one(c);
            assert(joined(rest) =~= joined(rest.drop_last()) + rest.last());
        }
    }
}

proof fn lemma_chop_joined(out: Seq<Seq<char>>, cur: Seq<char>, width: int)
    ensures
        joined(chop(out, cur, width).0) + chop(out, cur, width).1 == joined(out) + cur,
    decreases cur.len(),
{
    if width > 0 && cur.len() > width {
        let o2 = out.push(cur.take(width));
        lemma_chop_joined(o2, cur.skip(width), width);
        assert(o2.drop_last() =~= out);
        assert(joined(o2) + cur.skip(width) =~= joined(out) + cur);
    }
}

proof fn lemma_wrap_fold_joined(words: Seq<Seq<char>>, width: int)
    ensures
        without_spaces(joined(wrap_fold(words, width).0) + wrap_fold(words, width).1) == without_spaces(joined(words)),
    decreases words.len(),
{
    if words.len() > 0 {
        lemma_wrap_fold_joined(words.drop_last(), width);
        let (out, cur) = wrap_fold(words.drop_last(), width);
        let word = words.last();
        let before = joined(out) + cur;
        lemma_without_spaces_add(joined(words.drop_last()), word);
        lemma_without_spaces_add(before, word);
        if cur.len() == 0 {
            lemma_chop_joined(out, word, width);
            assert(before =~= joined(out));
        } else if cur.len() + 1 + word.len() <= width {
            lemma_chop_joined(out, cur.push(' ') + word, width);
            assert(joined(out) + (cur.push(' ') + word) =~= (before + seq![' ']) + word);
            lemma_without_spaces_add(before + seq![' '], word);
            lemma_without_spaces_add(before, seq![' ']);
            assert(seq![' '].drop_last() =~= Seq::<char>::empty());
            lemma_without_spaces_one(' ');
            assert(without_spaces(before) + without_spaces(seq![' ']) =~= without_spaces(before));
        } else {
            let o2 = out.push(cur);
            lemma_chop_joined(o2, word, width);
            assert(o2.drop_last() =~= out);
            assert(joined(o2) + word =~= before + word);
        }
    }
}

/// Wrapping drops nothing but spaces: the lines put end to end hold the
/// characters of `s` other than spaces, in order.
pub proof fn law_wrap_drops_only_spaces(s: Seq<char>, width: int)
    ensures
        without_spaces(joined(wrap_spec(s, width))) == without_spaces(s),
{
    if width == 0 {
        lemma_joined_one(s);
    } else {
        let words = split_on(s, ' ');
        lemma_wrap_fold_joined(words, width);
        lemma_split_joined(s);
        let (out, cur) = wrap_fold(words, width);
        if cur.len() > 0 {
            assert(out.push(cur).drop_last() =~= out);
        } else {
            assert(joined(out) + cur =~= joined(out));
        }
    }
}

/// Cut `cur` into lines of `width` while it is longer than that.
fn chop_exec(out: &mut Vec<Vec<char>>, cur: Vec<char>, width: usize) -> (rest: Vec<char>)
    requires
        width > 0,
    ensures
        (views(final(out)@), rest@) == chop(views(old(out)@), cur@, width as int),
{
    let ghost goal = chop(views(out@), cur@, width as int);
    let mut cur = cur;
    while cur.len() > width
        invariant
            width > 0,
            chop(views(out@), cur@, width as int) == goal,
        decreases cur.len(),
    {
        let head = slice_chars(cur.as_slice(), 0, width);
        let tail = slice_chars(cur.as_slice(), width, cur.len());
        let ghost before = views(out@);
        proof {
            assert(head@ =~= cur@.take(width as int));
            assert(tail@ =~= cur@.skip(width as int));
        }
        out.push(head);
        assert(views(out@) =~= before.push(head@));
        cur = tail;
    }
    cur
}

/// Greedily word-wrap `s` to `width` columns.
fn wrap_line(s: &[char], width: usize) -> (lines: Vec<Vec<char>>)
    ensures
        views(lines@) == wrap_spec(s@, width as int),
{
    if width == 0 {
        let whole = copy_chars(s);
        let lines = vec![whole];
        assert(views(lines@) =~= seq![s@]);
        return lines;
    }
    let words = split_chars(s, ' ');
    let ghost ws = split_on(s@, ' ');
    let mut out: Vec<Vec<char>> = Vec::new();
    let mut cur: Vec<char> = Vec::new();
    let mut i: usize = 0;
    proof {
        lemma_wrap_fold_fits(ws.take(0), width as int);
        assert(ws.take(0) =~= Seq::<Seq<char>>::empty());
        assert(views(out@) =~= Seq::<Seq<char>>::empty());
    }
    while i < words.len()
        invariant
            width > 0,
            views(words@) == ws,
            i <= words.len(),
            (views(out@), cur@) == wrap_fold(ws.take(i as int), width as int),
            cur@.len() <= width,
        decreases words.len() - i,
    {
        let word = copy_chars(words[i].as_slice());
        let ghost prev = (views(out@), cur@);
        proof {
            assert(ws.take(i + 1).drop_last() =~= ws.take(i as int));
            assert(ws.take(i + 1).last() == word@);
        }
        if cur.len() == 0 {
            cur = chop_exec(&mut out, word, width);
        } else if cur.len() < width && word.len() <= width - cur.len() - 1 {
            cur.push(' ');
            let ghost c1 = cur@;
            let mut k: usize = 0;
            while k < word.len()
                invariant
                    k <= word.len(),
                    cur@ == c1 + word@.subrange(0, k as int),
                decreases word.len() - k,
            {
                cur.push(word[k]);
                k = k + 1;
            }
            assert(word@.subrange(0, k as int) =~= word@);
            cur = chop_exec(&mut out, cur, width);
        } else {
            let ghost before = views(out@);
            out.push(cur);
            assert(views(out@) =~= before.push(prev.1));
            cur = chop_exec(&mut out, word, width);
        }
        proof {
            lemma_wrap_fold_fits(ws.take(i + 1), width as int);
        }
        i = i + 1;
    }
    assert(ws.take(i as int) =~= ws);
    if cur.len() > 0 {
        let ghost before = views(out@);
        let ghost last = cur@;
        out.push(cur);
        assert(views(out@) =~= before.push(last));
    }
    out
}

/// Cell `(a, b)` of `base` after writing `rows[0..n]` in `style`, row `k`
/// from `at(k)` rightwards and clipped to the buffer; later rows win.
pub open spec fn rows_cell(
    base: Buffer,
    rows: Seq<Seq<char>>,
    at: spec_fn(int) -> (int, int),
    style: Style,
    n: int,
    a: int,
    b: int,
) -> Cell
    decreases n,
{
    if n <= 0 {
        base.cell(a, b)
    } else {
        let (x, y) = at(n - 1);
        let t = rows[n - 1];
        if b == y && x <= a < x + t.len() && base.in_bounds(a, b) {
            Cell { ch: t[a - x], style }
        } else {
            rows_cell(base, rows, at, style, n - 1, a, b)
        }
    }
}

/// The rows `Text` shows for `content` in a box `w` wide: its lines, each
/// word-wrapped to `w` when `wrap`.
pub open spec fn text_rows(content: Seq<char>, wrap: bool, w: int) -> Seq<Seq<char>> {
    split_on(content, '\n').map_values(|l: Seq<char>| line_rows(l, wrap, w)).flatten()
}

/// The rows one line of text takes: the line word-wrapped to `w` when
/// `wrap`, else the line itself.
pub open spec fn line_rows(l: Seq<char>, wrap: bool, w: int) -> Seq<Seq<char>> {
    if wrap {
        wrap_spec(l, w)
    } else {
        seq![l]
    }
}

/// The rows of `content` for a box `w` wide.
fn text_rows_exec(content: &str, wrap: bool, w: u16) -> (rows: Vec<Vec<char>>)
    ensures
        views(rows@) == text_rows(content@, wrap, w as int),
{
    let chars = str_chars(content);
    let lines = split_chars(chars.as_slice(), '\n');
    let ghost ls = split_on(content@, '\n');
    let ghost f = |l: Seq<char>| line_rows(l, wrap, w as int);
    let mut rows: Vec<Vec<char>> = Vec::new();
    let mut i: usize = 0;
    assert(ls.take(0).map_values(f).flatten() =~= Seq::<Seq<char>>::empty());
    assert(views(rows@) =~= Seq::<Seq<char>>::empty());
    while i < lines.len()
        invariant
            views(lines@) == ls,
            i <= lines.len(),
            views(rows@) == ls.take(i as int).map_values(f).flatten(),
            forall|l: Seq<char>| #[trigger] f(l) == line_rows(l, wrap, w as int),
        decreases lines.len() - i,
    {
        assert(lines@[i as int]@ == ls[i as int]);
        let mut sub: Vec<Vec<char>> = if wrap {
            let v = wrap_line(lines[i].as_slice(), w as usize);
            assert(views(v@) == f(ls[i as int]));
            v
        } else {
            let one = copy_chars(lines[i].as_slice());
            let v = vec![one];
            assert(views(v@) =~= seq![ls[i as int]]);
            assert(views(v@) == f(ls[i as int]));
            v
        };
        let ghost before = views(rows@);
        let ghost part = views(sub@);
        assert(part == f(ls[i as int]));
        rows.append(&mut sub);
        proof {
            assert(views(rows@) =~= before + part);
            assert(ls.take(i + 1).map_values(f) =~= ls.take(i as int).map_values(f).push(f(ls[i as int])));
            ls.take(i as int).map_values(f).lemma_flatten_push(f(ls[i as int]));
        }
        i = i + 1;
    }
    assert(ls.take(i as int) =~= ls);
    assert(ls.map_values(f) =~= ls.map_values(|l: Seq<char>| line_rows(l, wrap, w as int)));
    rows
}

/// Where row `k` of `rows` starts in the rect `r`: aligned within its width,
/// on its `k`-th line.
pub open spec fn rows_at(r: Rect, al: Align, rows: Seq<Seq<char>>) -> spec_fn(int) -> (int, int) {
    |k: int| ((r.x + al.h_offset_spec((rows[k].len() % 65536) as int, r.w as int)) as u16 as int, r.y + k)
}

/// How many of `rows` fit above the bottom of `r`.
pub open spec fn rows_shown(r: Rect, rows: Seq<Seq<char>>) -> int {
    if rows.len() <= r.bottom_spec() - r.y {
        rows.len() as int
    } else {
        r.bottom_spec() - r.y
    }
}

/// Immediate text drawing into a rectangular region.
pub struct Text<'a> {
    buf: &'a mut Buffer,
    rect: Rect,
    style: Style,
    align: Align,
    wrap: bool,
}

impl<'a> Text<'a> {
    /// The buffer drawn into.
    pub closed spec fn target(&self) -> &'a mut Buffer {
        self.buf
    }

    pub closed spec fn rect_spec(&self) -> Rect {
        self.rect
    }

    pub closed spec fn style_spec(&self) -> Style {
        self.style
    }

    pub closed spec fn align_spec(&self) -> Align {
        self.align
    }

    /// Whether long lines are word-wrapped.
    pub closed spec fn wraps(&self) -> bool {
        self.wrap
    }

    /// The same buffer and settings but for the style.
    pub open spec fn same_but_style(&self, o: &Text<'a>) -> bool {
        &&& *self.target() == *o.target()
        &&& self.rect_spec() == o.rect_spec()
        &&& self.align_spec() == o.align_spec()
        &&& self.wraps() == o.wraps()
    }

    /// Left-aligned, unwrapped text in the plain style.
    pub fn new(buf: &'a mut Buffer, rect: Rect) -> (t: Text<'a>)
        ensures
            *t.target() == *old(buf),
            *final(t.target()) == *final(buf),
            t.rect_spec() == rect,
            t.style_spec() == plain_style(),
            t.align_spec() == Align::Left,
            !t.wraps(),
    {
        Text { buf, rect, style: Style::default(), align: Align::Left, wrap: false }
    }

    pub fn fg(self, c: Color) -> (t: Text<'a>)
        ensures
            t.same_but_style(&self),
            *final(t.target()) == *final(self.target()),
            t.style_spec() == (Style { fg: c, ..self.style_spec() }),
    {
        let style = Style { fg: c, ..self.style };
        Text { style, ..self }
    }

    pub fn bg(self, c: Color) -> (t: Text<'a>)
        ensures
            t.same_but_style(&self),
            *final(t.target()) == *final(self.target()),
            t.style_spec() == (Style { bg: c, ..self.style_spec() }),
    {
        let style = Style { bg: c, ..self.style };
        Text { style, ..self }
    }

    pub fn style(self, s: Style) -> (t: Text<'a>)
        ensures
            t.same_but_style(&self),
            *final(t.target()) == *final(self.target()),
            t.style_spec() == s,
    {
        Text { style: s, ..self }
    }

    pub fn align(self, a: Align) -> (t: Text<'a>)
        ensures
            *t.target() == *self.target(),
            *final(t.target()) == *final(self.target()),
            t.rect_spec() == self.rect_spec(),
            t.style_spec() == self.style_spec(),
            t.align_spec() == a,
            t.wraps() == self.wraps(),
    {
        Text { align: a, ..self }
    }

    pub fn wrap(self, v: bool) -> (t: Text<'a>)
        ensures
            *t.target() == *self.target(),
            *final(t.target()) == *final(self.target()),
            t.rect_spec() == self.rect_spec(),
            t.style_spec() == self.style_spec(),
            t.align_spec() == self.align_spec(),
            t.wraps() == v,
    {
        Text { wrap: v, ..self }
    }

    /// Draw `content` into the region: its lines (word-wrapped when set),
    /// one per row from the top, aligned within the rect's width, as many
    /// as fit above the rect's bottom.
    pub fn draw(self, content: &str)
        requires
            self.target().wf(),
        ensures
            ({
                let rows = text_rows(content@, self.wraps(), self.rect_spec().w as int);
                let after = *final(self.target());
                &&& after.wf()
                &&& after.area == self.target().area
                &&& forall|a: int, b: int|
                    #[trigger] after.cell(a, b) == rows_cell(
                        *self.target(),
                        rows,
                        rows_at(self.rect_spec(), self.align_spec(), rows),
                        self.style_spec(),
                        rows_shown(self.rect_spec(), rows),
                        a,
                        b,
                    )
            }),
    {
        let ghost me = self;
        let ghost b0 = *self.buf;
        let ghost fin = *final(self.buf);
        let rows = text_rows_exec(content, self.wrap, self.rect.w);
        let ghost rs = views(rows@);
        let ghost at = rows_at(me.rect_spec(), me.align_spec(), rs);
        let rect = self.rect;
        let align = self.align;
        let st = self.style;
        let bottom = rect.bottom();
        let buf = self.buf;
        let mut row: u16 = rect.y;
        let mut k: usize = 0;
        while k < rows.len() && row < bottom
            invariant
                k <= rows.len(),
                row == rect.y + k,
                row <= bottom,
                bottom == rect.bottom_spec(),
                views(rows@) == rs,
                rect == me.rect_spec(),
                align == me.align_spec(),
                st == me.style_spec(),
                at == rows_at(me.rect_spec(), me.align_spec(), rs),
                buf.wf(),
                buf.area == b0.area,
                *final(buf) == fin,
                forall|a: int, b: int| #[trigger] buf.cell(a, b) == rows_cell(b0, rs, at, st, k as int, a, b),
            decreases rows.len() - k,
        {
            let line = &rows[k];
            let mut s = String::new();
            push_chars(&mut s, line.as_slice());
            let n = line.len();
            let len = n as u16;
            assert(len == n % 65536) by (bit_vector)
                requires len == n as u16;
            let off = align.h_offset(len, rect.w);
            let x = (rect.x as i32 + off as i32) as u16;
            buf.write_str(x, row, s.as_str(), st);
            row = row + 1;
            k = k + 1;
        }
        assert(k as int == rows_shown(me.rect_spec(), rs));
    }
}

/// Draw a multi-line ASCII art block at `(x, y)`.
pub struct Ascii<'a> {
    buf: &'a mut Buffer,
    x: u16,
    y: u16,
    style: Style,
}

impl<'a> Ascii<'a> {
    /// The buffer drawn into.
    pub closed spec fn target(&self) -> &'a mut Buffer {
        self.buf
    }

    /// The top-left corner of the art.
    pub closed spec fn origin(&self) -> (u16, u16) {
        (self.x, self.y)
    }

    pub closed spec fn style_spec(&self) -> Style {
        self.style
    }

    pub fn new(buf: &'a mut Buffer, x: u16, y: u16) -> (t: Ascii<'a>)
        ensures
            *t.target() == *old(buf),
            *final(t.target()) == *final(buf),
            t.origin() == (x, y),
            t.style_spec() == plain_style(),
    {
        Ascii { buf, x, y, style: Style::default() }
    }

    pub fn fg(self, c: Color) -> (t: Ascii<'a>)
        ensures
            *t.target() == *self.target(),
            *final(t.target()) == *final(self.target()),
            t.origin() == self.origin(),
            t.style_spec() == (Style { fg: c, ..self.style_spec() }),
    {
        let style = Style { fg: c, ..self.style };
        Ascii { style, ..self }
    }

    pub fn style(self, s: Style) -> (t: Ascii<'a>)
        ensures
            *t.target() == *self.target(),
            *final(t.target()) == *final(self.target()),
            t.origin() == self.origin(),
            t.style_spec() == s,
    {
        Ascii { style: s, ..self }
    }

    /// Where line `k` of the art starts (rows past the last one wrap to the top).
    pub open spec fn line_at(&self) -> spec_fn(int) -> (int, int) {
        let (x, y) = self.origin();
        |k: int| (x as int, (y + k) as u16 as int)
    }

    /// Draw `art` (which may contain newlines and spaces) preserving its layout:
    /// line `k` is written from `(x, y + k)`.
    pub fn draw(self, art: &str)
        requires
            self.target().wf(),
            self.origin().1 + split_on(art@, '\n').len() <= i32::MAX,
        ensures
            ({
                let lines = split_on(art@, '\n');
                let after = *final(self.target());
                &&& after.wf()
                &&& after.area == self.target().area
                &&& forall|a: int, b: int|
                    #[trigger] after.cell(a, b) == rows_cell(
                        *self.target(),
                        lines,
                        self.line_at(),
                        self.style_spec(),
                        lines.len() as int,
                        a,
                        b,
                    )
            }),
    {
        let ghost me = self;
        let ghost b0 = *self.buf;
        let ghost fin = *final(self.buf);
        let chars = str_chars(art);
        let lines = split_chars(chars.as_slice(), '\n');
        let ghost ls = views(lines@);
        let ghost at = me.line_at();
        let x = self.x;
        let st = self.style;
        let buf = self.buf;
        let mut yy: i32 = self.y as i32;
        let mut k: usize = 0;
        while k < lines.len()
            invariant
                k <= lines.len(),
                yy == me.origin().1 + k,
                me.origin().1 + lines.len() <= i32::MAX,
                views(lines@) == ls,
                ls == split_on(art@, '\n'),
                x == me.origin().0,
                st == me.style_spec(),
                at == me.line_at(),
                buf.wf(),
                buf.area == b0.area,
                *final(buf) == fin,
                forall|a: int, b: int| #[trigger] buf.cell(a, b) == rows_cell(b0, ls, at, st, k as int, a, b),
            decreases lines.len() - k,
        {
            let mut s = String::new();
            push_chars(&mut s, lines[k].as_slice());
            buf.write_str(x, yy as u16, s.as_str(), st);
            yy = yy + 1;
            k = k + 1;
        }
    }
}

} // verus!
