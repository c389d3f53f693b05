//! A renderer that lays text out in lines of a fixed width: words are
//! wrapped greedily, pre regions are kept verbatim, sub-renderers are
//! appended with line prefixes, and finished renderers are composed side by
//! side as table columns.

use vstd::prelude::*;

use super::chars::{char_is_whitespace, chars_of, is_white_space, saturated, string_of, utf8_count, utf8_len};
use super::{Nesting, RenderError, Renderer};

verus! {

/// One emitted line. A verbatim line holds text that was not wrapped (a
/// pre region, a block line, a prefixed line of a sub-renderer) and may be
/// wider than the renderer.
pub struct Line {
    pub text: Vec<char>,
    pub verbatim: bool,
}

impl Line {
    /// The line's text.
    pub fn to_string(&self) -> (r: String)
        ensures
            r@ == self.text@,
    {
        string_of(&self.text)
    }
}

/// The texts of `lines`, each followed by a newline.
pub open spec fn text_of(lines: Seq<(Seq<char>, bool)>) -> Seq<char>
    decreases lines.len(),
{
    if lines.len() == 0 {
        Seq::empty()
    } else {
        (text_of(lines.drop_last()) + lines.last().0).push('\n')
    }
}

/// The line of the first fragment in `fs` named `name`.
pub open spec fn first_fragment(fs: Seq<(Seq<char>, usize)>, name: Seq<char>) -> Option<usize>
    decreases fs.len(),
{
    if fs.len() == 0 {
        None
    } else if fs[0].0 == name {
        Some(fs[0].1)
    } else {
        first_fragment(fs.drop_first(), name)
    }
}

/// Whether `a` and `b` hold the same characters.
fn same_chars(a: &Vec<char>, b: &Vec<char>) -> (r: bool)
    ensures
        r == (a@ == b@),
{
    if a.len() != b.len() {
        return false;
    }
    let mut i: usize = 0;
    while i < a.len()
        invariant
            a@.len() == b@.len(),
            i <= a@.len(),
            a@.subrange(0, i as int) == b@.subrange(0, i as int),
        decreases a@.len() - i,
    {
        if a[i] != b[i] {
            assert(a@[i as int] != b@[i as int]);
            return false;
        }
        assert(a@.subrange(0, i + 1) =~= a@.subrange(0, i as int).push(a@[i as int]));
        assert(b@.subrange(0, i + 1) =~= b@.subrange(0, i as int).push(b@[i as int]));
        i = i + 1;
    }
    assert(a@.subrange(0, i as int) =~= a@);
    assert(b@.subrange(0, i as int) =~= b@);
    true
}

/// Whether line `l` respects width `w`: every line that was wrapped does.
pub open spec fn fits(l: Line, w: nat) -> bool {
    l.verbatim || l.text@.len() <= w
}

/// The layout state of a renderer: the emitted lines (text and whether it
/// is verbatim), the line being filled, whether that line holds verbatim
/// text, and the word not yet placed.
pub type Layout = (Seq<(Seq<char>, bool)>, Seq<char>, bool, Seq<char>);

/// End the line being filled.
pub open spec fn flushed(s: Layout) -> Layout {
    (s.0.push((s.1, s.2)), Seq::empty(), false, s.3)
}

/// Cut `word` into lines of `w` characters until what is left fits in
/// one line; the lines go after `lines`, and what is left is returned.
pub open spec fn split_word(lines: Seq<(Seq<char>, bool)>, word: Seq<char>, w: nat) -> (Seq<(Seq<char>, bool)>, Seq<char>)
    decreases word.len(),
{
    if w == 0 || word.len() <= w {
        (lines, word)
    } else {
        split_word(lines.push((word.take(w as int), false)), word.skip(w as int), w)
    }
}

/// Place the pending word at width `w`: one space after the text of the
/// line being filled if it fits there, else at the start of a new line,
/// cut into full-width pieces if it is wider than a line.
pub open spec fn placed(s: Layout, w: nat) -> Layout {
    if s.3.len() == 0 {
        s
    } else {
        let s1 = if s.2 { flushed(s) } else { s };
        let cur = s1.1;
        let word = s1.3;
        if cur.len() == 0 && word.len() <= w {
            (s1.0, word, false, Seq::empty())
        } else if cur.len() > 0 && cur.len() + 1 + word.len() <= w {
            (s1.0, cur.push(' ') + word, false, Seq::empty())
        } else {
            let s2 = if cur.len() > 0 { flushed(s1) } else { s1 };
            let cut = split_word(s2.0, word, w);
            (cut.0, cut.1, false, Seq::empty())
        }
    }
}

/// Feed one character of inline text: whitespace places the pending word,
/// anything else extends it.
pub open spec fn fed_char(s: Layout, c: char, w: nat) -> Layout {
    if is_white_space(c) {
        placed(s, w)
    } else {
        (s.0, s.1, s.2, s.3.push(c))
    }
}

/// Feed inline text, character by character.
pub open spec fn fed(s: Layout, text: Seq<char>, w: nat) -> Layout
    decreases text.len(),
{
    if text.len() == 0 {
        s
    } else {
        fed(fed_char(s, text[0], w), text.drop_first(), w)
    }
}

/// Place the pending word and end the line being filled unless it is
/// empty.
pub open spec fn finished(s: Layout, w: nat) -> Layout {
    let p = placed(s, w);
    if p.1.len() > 0 { flushed(p) } else { p }
}

/// Add text verbatim: a newline ends the line being filled, any other
/// character is added to it as it is.
pub open spec fn verbatim(s: Layout, text: Seq<char>) -> Layout
    decreases text.len(),
{
    if text.len() == 0 {
        s
    } else {
        let s1 = if text[0] == '\n' { flushed(s) } else { (s.0, s.1.push(text[0]), true, s.3) };
        verbatim(s1, text.drop_first())
    }
}

/// A border line of `w` cells.
pub open spec fn border_line(w: nat) -> Seq<char> {
    Seq::new(w, |i: int| '\u{2500}')
}

/// The lines `lines` preceded by `prefixes` position by position (none
/// past the last prefix); a line that its prefix makes wider than `w` is
/// verbatim.
pub open spec fn prefixed(lines: Seq<(Seq<char>, bool)>, prefixes: Seq<Seq<char>>, w: nat) -> Seq<(Seq<char>, bool)> {
    Seq::new(lines.len(), |i: int| {
        let t = (if i < prefixes.len() { prefixes[i] } else { Seq::empty() }) + lines[i].0;
        (t, t.len() > 0 && (lines[i].1 || t.len() > w))
    })
}

/// A renderer which wraps text at a fixed width.
pub struct TextRenderer {
    width: usize,
    lines: Vec<Line>,
    current: Vec<char>,
    current_verbatim: bool,
    word: Vec<char>,
    count: usize,
    collapsible: Option<usize>,
    frags: Vec<(Vec<char>, usize)>,
    marks: Vec<(usize, usize, usize, usize, usize)>,
    pres: usize,
    links: usize,
    emphases: usize,
    strongs: usize,
    codes: usize,
}

/// `v[from..to]` as a new vector.
fn slice_chars(v: &Vec<char>, from: usize, to: usize) -> (r: Vec<char>)
    requires
        from <= to <= v@.len(),
    ensures
        r@ == v@.subrange(from as int, to as int),
{
    let mut r: Vec<char> = Vec::new();
    let mut i: usize = from;
    while i < to
        invariant
            from <= i <= to <= v@.len(),
            r@ == v@.subrange(from as int, i as int),
        decreases to - i,
    {
        r.push(v[i]);
        i = i + 1;
        assert(r@ =~= v@.subrange(from as int, i as int));
    }
    r
}

/// A border line of `w` cells.
fn border(w: usize) -> (r: Vec<char>)
    ensures
        r@ == border_line(w as nat),
{
    let mut r: Vec<char> = Vec::new();
    let mut i: usize = 0;
    while i < w
        invariant
            i <= w,
            r@ == border_line(i as nat),
        decreases w - i,
    {
        r.push('\u{2500}');
        i = i + 1;
        assert(r@ =~= border_line(i as nat));
    }
    r
}

impl TextRenderer {
    /// The lines emitted so far, not counting the line being filled.
    pub closed spec fn emitted(&self) -> Seq<Line> {
        self.lines@
    }

    /// The fragments recorded so far, each with the line it starts at, in
    /// the order they were recorded.
    pub closed spec fn fragments(&self) -> Seq<(Seq<char>, usize)> {
        self.frags@.map_values(|f: (Vec<char>, usize)| (f.0@, f.1))
    }

    /// The layout state.
    pub closed spec fn layout(&self) -> Layout {
        (self.lines@.map_values(|l: Line| (l.text@, l.verbatim)), self.current@, self.current_verbatim, self.word@)
    }

    /// Whether a pre region opened inside the innermost block is open.
    pub closed spec fn pre_open_inside_block(&self) -> bool {
        self.marks@.len() > 0 && self.pres > self.marks@.last().0
    }

    /// Whether a pre region or a span opened inside the innermost block is
    /// open.
    pub closed spec fn open_inside_block(&self) -> bool {
        let m = self.marks@.last();
        self.marks@.len() > 0 && (self.pres > m.0 || self.links > m.1 || self.emphases > m.2
            || self.strongs > m.3 || self.codes > m.4)
    }

    /// Whether a border added when `n` lines have been emitted merges into
    /// the closing border of columns composed with `collapse`.
    pub closed spec fn border_merges(&self, n: nat) -> bool {
        self.collapsible == Some(n as usize)
    }

    /// Every emitted line respects the width, and so does the line being
    /// filled unless it holds verbatim text.
    pub closed spec fn well_formed(&self) -> bool {
        &&& self.width >= 1
        &&& forall|i: int| 0 <= i < self.lines@.len() ==> fits(#[trigger] self.lines@[i], self.width as nat)
        &&& self.current_verbatim || self.current@.len() <= self.width
        &&& self.current_verbatim ==> self.current@.len() > 0
    }

    /// Whether nothing is pending: no partial word and no partial line.
    pub closed spec fn settled(&self) -> bool {
        self.word@.len() == 0 && self.current@.len() == 0 && !self.current_verbatim
    }

    /// Whether anything has been emitted or is pending.
    pub closed spec fn content(&self) -> bool {
        self.lines@.len() > 0 || self.current@.len() > 0 || self.word@.len() > 0
    }

    /// Same width and scope depths as `other`.
    pub closed spec fn same_depths(&self, other: &Self) -> bool {
        &&& self.width == other.width
        &&& self.marks@ == other.marks@
        &&& self.pres == other.pres
        &&& self.links == other.links
        &&& self.emphases == other.emphases
        &&& self.strongs == other.strongs
        &&& self.codes == other.codes
    }

    /// Same width, text count and scope depths as `other`.
    pub closed spec fn same_scopes(&self, other: &Self) -> bool {
        self.same_depths(other) && self.count == other.count
    }

    /// A new renderer of `width` cells; a zero width cannot hold a
    /// character and is refused.
    pub fn new(width: usize) -> (r: Result<Self, RenderError>)
        ensures
            width == 0 <==> r == Err::<Self, RenderError>(RenderError::InvalidWidth),
            r matches Ok(t) ==> t.well_formed() && t.settled() && t.emitted().len() == 0
                && t.fragments().len() == 0 && (forall|n: nat| !#[trigger] t.border_merges(n))
                && t.cells() == width && t.units() == 0 && !t.has_content()
                && forall|k: Nesting| #[trigger] t.depth(k) == 0,
    {
        if width == 0 {
            return Err(RenderError::InvalidWidth);
        }
        Ok(TextRenderer {
            width,
            lines: Vec::new(),
            current: Vec::new(),
            current_verbatim: false,
            word: Vec::new(),
            count: 0,
            collapsible: None,
            frags: Vec::new(),
            marks: Vec::new(),
            pres: 0,
            links: 0,
            emphases: 0,
            strongs: 0,
            codes: 0,
        })
    }

    /// Emit the line being filled, even when it is empty.
    fn flush_line(&mut self)
        requires
            old(self).well_formed(),
        ensures
            final(self).well_formed(),
            final(self).same_scopes(old(self)),
            final(self).lines@.len() == old(self).lines@.len() + 1,
            forall|i: int| 0 <= i < old(self).lines@.len() ==> #[trigger] final(self).lines@[i] == old(self).lines@[i],
            final(self).lines@.last().text@ == old(self).current@,
            final(self).lines@.last().verbatim == old(self).current_verbatim,
            final(self).layout() == flushed(old(self).layout()),
            final(self).current@.len() == 0,
            !final(self).current_verbatim,
            final(self).word == old(self).word,
            final(self).collapsible == old(self).collapsible,
    {
        let mut text: Vec<char> = Vec::new();
        text.append(&mut self.current);
        let verbatim = self.current_verbatim;
        self.lines.push(Line { text, verbatim });
        self.current_verbatim = false;
        assert(self.layout().0 =~= old(self).layout().0.push((old(self).current@, old(self).current_verbatim)));
        assert(self.layout().1 =~= Seq::<char>::empty());
        proof {
            assert forall|i: int| 0 <= i < self.lines@.len() implies fits(#[trigger] self.lines@[i], self.width as nat) by {
                if i < old(self).lines@.len() {
                    assert(self.lines@[i] == old(self).lines@[i]);
                }
            }
        }
    }
    /// Place the pending word: after the line being filled, one space
    /// apart, if it fits there; else at the start of a new line, split into
    /// pieces of the full width if it is wider than that.
    fn place_word(&mut self)
        requires
            old(self).well_formed(),
        ensures
            final(self).well_formed(),
            final(self).same_scopes(old(self)),
            final(self).word@.len() == 0,
            old(self).content() ==> final(self).content(),
            final(self).lines@.len() >= old(self).lines@.len(),
            forall|i: int| 0 <= i < old(self).lines@.len() ==> #[trigger] final(self).lines@[i] == old(self).lines@[i],
            final(self).collapsible == old(self).collapsible,
            old(self).word@.len() == 0 ==> *final(self) == *old(self),
            final(self).layout() == placed(old(self).layout(), old(self).width as nat),
    {
        if self.word.len() == 0 {
            return;
        }
        if self.current_verbatim {
            self.flush_line();
        }
        let ghost s1 = self.layout();
        let cur = self.current.len();
        let wl = self.word.len();
        let w = self.width;
        if cur == 0 && wl <= w {
            self.current.append(&mut self.word);
            assert(self.layout().1 =~= s1.3);
            assert(self.layout() =~= (s1.0, s1.3, false, Seq::<char>::empty()));
        } else if cur > 0 && cur < w && wl <= w - cur - 1 {
            self.current.push(' ');
            self.current.append(&mut self.word);
            assert(self.layout() =~= (s1.0, s1.1.push(' ') + s1.3, false, Seq::<char>::empty()));
        } else {
            if cur > 0 {
                self.flush_line();
            }
            let mut word: Vec<char> = Vec::new();
            word.append(&mut self.word);
            let ghost base = self.lines@.len();
            let ghost s2 = self.layout();
            let mut i: usize = 0;
            assert(word@.skip(0) =~= word@);
            while wl - i > w
                invariant
                    self.well_formed(),
                    self.same_scopes(old(self)),
                    self.width == w,
                    self.current@.len() == 0,
                    !self.current_verbatim,
                    self.word@.len() == 0,
                    self.collapsible == old(self).collapsible,
                    self.lines@.len() >= base >= old(self).lines@.len(),
                    forall|j: int| 0 <= j < old(self).lines@.len() ==> #[trigger] self.lines@[j] == old(self).lines@[j],
                    word@.len() == wl,
                    word@ == s1.3,
                    0 < wl,
                    i < wl,
                    split_word(s2.0, s1.3, w as nat) == split_word(self.layout().0, word@.skip(i as int), w as nat),
                decreases wl - i,
            {
                self.current = slice_chars(&word, i, i + w);
                self.flush_line();
                assert(word@.skip(i as int).take(w as int) =~= word@.subrange(i as int, i + w));
                assert(word@.skip(i as int).skip(w as int) =~= word@.skip(i + w));
                i = i + w;
            }
            self.current = slice_chars(&word, i, wl);
            assert(self.current@ =~= word@.skip(i as int));
            assert(self.layout() =~= (split_word(s2.0, s1.3, w as nat).0, split_word(s2.0, s1.3, w as nat).1, false, Seq::<char>::empty()));
        }
    }

    /// Append `chars` verbatim: a newline ends the line being filled.
    fn push_verbatim(&mut self, chars: &Vec<char>)
        requires
            old(self).well_formed(),
            old(self).word@.len() == 0,
        ensures
            final(self).well_formed(),
            final(self).same_scopes(old(self)),
            final(self).word@.len() == 0,
            old(self).content() ==> final(self).content(),
            chars@.len() > 0 ==> final(self).content(),
            final(self).lines@.len() >= old(self).lines@.len(),
            forall|i: int| 0 <= i < old(self).lines@.len() ==> #[trigger] final(self).lines@[i] == old(self).lines@[i],
            final(self).collapsible == old(self).collapsible,
            final(self).layout() == verbatim(old(self).layout(), chars@),
    {
        let n = chars.len();
        let mut i: usize = 0;
        assert(chars@.skip(0) =~= chars@);
        while i < n
            invariant
                self.well_formed(),
                self.same_scopes(old(self)),
                self.word@.len() == 0,
                verbatim(self.layout(), chars@.skip(i as int)) == verbatim(old(self).layout(), chars@),
                old(self).content() ==> self.content(),
                i > 0 ==> self.content(),
                self.lines@.len() >= old(self).lines@.len(),
                forall|j: int| 0 <= j < old(self).lines@.len() ==> #[trigger] self.lines@[j] == old(self).lines@[j],
                self.collapsible == old(self).collapsible,
                n == chars@.len(),
                i <= n,
            decreases n - i,
        {
            let c = chars[i];
            assert(chars@.skip(i as int).drop_first() =~= chars@.skip(i + 1));
            let ghost before = self.layout();
            if c == '\n' {
                self.flush_line();
            } else {
                self.current.push(c);
                self.current_verbatim = true;
                assert(self.layout() =~= (before.0, before.1.push(c), true, before.3));
            }
            i = i + 1;
        }
    }

    /// Compose finished renderers side by side as table columns.
    ///
    /// Each column is first finished. It is refused with
    /// `ColumnWidthMismatch`, and nothing changes, when a column holds a
    /// line wider than the column, or when the columns with a border cell
    /// between each two are wider than this renderer. Otherwise the line
    /// being filled is ended, a border is added unless `collapse`, then one
    /// row for each line of the longest column: each column's line, or
    /// nothing where it has no more, padded to the column's width, joined
    /// by vertical borders. A closing border follows; with `collapse` a
    /// border requested right after it merges into it.
    pub fn compose_columns(&mut self, cols: Vec<TextRenderer>, collapse: bool) -> (r: Result<(), RenderError>)
        requires
            old(self).well_formed(),
            forall|j: int| 0 <= j < cols@.len() ==> (#[trigger] cols@[j]).well_formed(),
        ensures
            final(self).well_formed(),
            final(self).same_scopes(old(self)),
            old(self).content() ==> final(self).content(),
            r is Err ==> r == Err::<(), RenderError>(RenderError::ColumnWidthMismatch) && *final(self) == *old(self),
            r is Ok <==> columns_fit(cols@, old(self).cells()),
            r is Ok ==> final(self).layout().0.len() == finished(old(self).layout(), old(self).cells()).0.len() + (if collapse { 0int } else { 1int }) + most_lines(cols@) + 1,
            r is Ok ==> forall|i: int| 0 <= i < finished(old(self).layout(), old(self).cells()).0.len() ==> #[trigger] final(self).layout().0[i] == finished(old(self).layout(), old(self).cells()).0[i],
            r is Ok && !collapse ==> final(self).layout().0[finished(old(self).layout(), old(self).cells()).0.len() as int] == (border_line(old(self).cells()), false),
            r is Ok ==> forall|k: int| 0 <= k < most_lines(cols@) ==> final(self).layout().0[finished(old(self).layout(), old(self).cells()).0.len() + (if collapse { 0int } else { 1int }) + k]
                == (#[trigger] row_text(cols@, k), false),
            r is Ok ==> final(self).layout().0.last() == (border_line(old(self).cells()), false),
            r is Ok ==> final(self).settled(),
            r is Ok && collapse ==> final(self).border_merges(final(self).layout().0.len()),
    {
        let ghost all = cols@;
        let mut rest = cols;
        let n = rest.len();
        let mut done: Vec<TextRenderer> = Vec::new();
        let mut j: usize = 0;
        while j < n
            invariant
                *self == *old(self),
                self.well_formed(),
                n == all.len(),
                all == cols@,
                j <= n,
                rest@ == all.skip(j as int),
                done@.len() == j,
                forall|k: int| 0 <= k < all.len() ==> (#[trigger] all[k]).well_formed(),
                forall|k: int| 0 <= k < j ==> (#[trigger] done@[k]).well_formed() && done@[k].settled()
                    && done@[k].cells() == all[k].cells() && final_lines(done@[k]) == final_lines(all[k])
                    && final_lines(done@[k]) == done@[k].layout().0,
            decreases n - j,
        {
            let mut c = rest.remove(0);
            assert(rest@ =~= all.skip(j + 1));
            assert(c == all[j as int]);
            c.finish();
            assert(finished(c.layout(), c.cells()) == c.layout());
            done.push(c);
            j = j + 1;
        }
        let ghost cs = done@;
        proof {
            lemma_columns_agree(cs, all);
        }
        let mut line_len: usize = 0;
        let mut rows: usize = 0;
        j = 0;
        while j < n
            invariant
                *self == *old(self),
                self.well_formed(),
                n == cs.len(),
                n == all.len(),
                all == cols@,
                done@ == cs,
                forall|k: int| 0 <= k < n ==> (#[trigger] cs[k]).settled() && final_lines(cs[k]) == cs[k].layout().0
                    && final_lines(cs[k]) == final_lines(all[k]) && cs[k].cells() == all[k].cells(),
                row_width(cs) == row_width(all),
                j <= n,
                line_len == row_width(cs.take(j as int)),
                j > 0 ==> line_len <= self.width,
                rows == most_lines(cs.take(j as int)),
                forall|k: int, i: int| 0 <= k < j && 0 <= i < final_lines(cs[k]).len()
                    ==> (#[trigger] final_lines(cs[k])[i]).0.len() <= cs[k].cells(),
            decreases n - j,
        {
            let c = &done[j];
            assert(cs.take(j + 1).drop_last() =~= cs.take(j as int));
            assert(cs.take(j + 1).last() == cs[j as int]);
            if j == 0 {
                if c.width > self.width {
                    proof {
                        assert(row_width(cs.take(1)) == cs[0].cells());
                        lemma_row_width_prefix(cs, 1);
                    }
                    return Err(RenderError::ColumnWidthMismatch);
                }
                line_len = c.width;
            } else {
                if line_len >= self.width || c.width > self.width - line_len - 1 {
                    proof {
                        assert(row_width(cs.take(j + 1)) == line_len + 1 + cs[j as int].cells());
                        lemma_row_width_prefix(cs, j + 1);
                    }
                    return Err(RenderError::ColumnWidthMismatch);
                }
                line_len = line_len + 1 + c.width;
            }
            let m = c.lines.len();
            assert(final_lines(cs[j as int]).len() == m);
            let mut i: usize = 0;
            while i < m
                invariant
                    *self == *old(self),
                    self.well_formed(),
                    n == cs.len(),
                    n == all.len(),
                    all == cols@,
                    forall|k: int| 0 <= k < n ==> (#[trigger] cs[k]).settled() && final_lines(cs[k]) == cs[k].layout().0
                        && final_lines(cs[k]) == final_lines(all[k]) && cs[k].cells() == all[k].cells(),
                    j < n,
                    *c == cs[j as int],
                    m == c.lines@.len(),
                    i <= m,
                    forall|t: int| 0 <= t < i ==> (#[trigger] final_lines(cs[j as int])[t]).0.len() <= c.width,
                decreases m - i,
            {
                assert(final_lines(cs[j as int])[i as int].0 == c.lines@[i as int].text@);
                if c.lines[i].text.len() > c.width {
                    proof {
                        assert(final_lines(all[j as int])[i as int].0.len() > all[j as int].cells());
                    }
                    return Err(RenderError::ColumnWidthMismatch);
                }
                i = i + 1;
            }
            if m > rows {
                rows = m;
            }
            j = j + 1;
        }
        proof {
            assert(cs.take(n as int) =~= cs);
            assert forall|k: int, i: int| 0 <= k < n && 0 <= i < final_lines(all[k]).len()
                implies (#[trigger] final_lines(all[k])[i]).0.len() <= all[k].cells() by {
                assert(final_lines(cs[k])[i].0.len() <= cs[k].cells());
            }
        }
        self.finish();
        let ghost fl = self.layout().0;
        if !collapse {
            self.current = border(self.width);
            self.flush_line();
        }
        let ghost base = self.layout().0.len();
        let ghost before = self.layout().0;
        let mut r: usize = 0;
        while r < rows
            invariant
                self.well_formed(),
                self.same_scopes(old(self)),
                old(self).content() ==> self.content(),
                self.layout().0.len() == base + r,
                forall|i: int| 0 <= i < base ==> #[trigger] self.layout().0[i] == before[i],
                forall|k: int| 0 <= k < r ==> self.layout().0[base + k] == (#[trigger] row_text(cs, k), false),
                self.settled(),
                r <= rows,
                done@ == cs,
                n == cs.len(),
                forall|k: int| 0 <= k < n ==> (#[trigger] cs[k]).settled() && final_lines(cs[k]) == cs[k].layout().0,
                line_len == row_width(cs),
                n > 0 ==> line_len <= self.width,
                rows > 0 ==> n > 0,
                forall|k: int, i: int| 0 <= k < n && 0 <= i < final_lines(cs[k]).len()
                    ==> (#[trigger] final_lines(cs[k])[i]).0.len() <= cs[k].cells(),
            decreases rows - r,
        {
            let mut row: Vec<char> = Vec::new();
            let mut j: usize = 0;
            while j < n
                invariant
                    done@ == cs,
                    n == cs.len(),
                    j <= n,
                    row@.len() == row_width(cs.take(j as int)),
                    row@ == row_text(cs.take(j as int), r as int),
                    forall|k: int| 0 <= k < n ==> (#[trigger] cs[k]).settled() && final_lines(cs[k]) == cs[k].layout().0,
                    forall|k: int, i: int| 0 <= k < n && 0 <= i < final_lines(cs[k]).len()
                        ==> (#[trigger] final_lines(cs[k])[i]).0.len() <= cs[k].cells(),
                decreases n - j,
            {
                let c = &done[j];
                assert(cs.take(j + 1).drop_last() =~= cs.take(j as int));
                if j > 0 {
                    row.push('\u{2502}');
                }
                let mut cell: Vec<char> = if r < c.lines.len() {
                    assert(final_lines(cs[j as int])[r as int].0 == c.lines@[r as int].text@);
                    slice_chars(&c.lines[r].text, 0, c.lines[r].text.len())
                } else {
                    Vec::new()
                };
                let ghost t = cell@;
                while cell.len() < c.width
                    invariant
                        t.len() <= cell@.len() <= c.width,
                        cell@ == t + Seq::new((cell@.len() - t.len()) as nat, |i: int| ' '),
                    decreases c.width - cell@.len(),
                {
                    cell.push(' ');
                    assert(cell@ =~= t + Seq::new((cell@.len() - t.len()) as nat, |i: int| ' '));
                }
                assert(cell@ == cell_text(cs[j as int], r as int));
                assert(cs.take(j + 1).last() == cs[j as int]);
                row.append(&mut cell);
                j = j + 1;
            }
            assert(cs.take(n as int) =~= cs);
            self.current = row;
            self.flush_line();
            r = r + 1;
        }
        self.current = border(self.width);
        self.flush_line();
        proof {
            assert(most_lines(cs) == most_lines(all));
            assert forall|k: int| 0 <= k < most_lines(all) implies self.layout().0[fl.len() + (if collapse { 0int } else { 1int }) + k]
                == (#[trigger] row_text(all, k), false) by {
                assert(row_text(cs, k) == row_text(all, k));
                assert(self.layout().0[base + k] == (row_text(cs, k), false));
            }
        }
        if collapse {
            self.collapsible = Some(self.lines.len());
        }
        Ok(())
    }

    /// Finish and hand out the lines: those emitted so far, then those
    /// that finishing emits. Every line that is not verbatim fits the
    /// width.
    pub fn into_lines(self) -> (r: Vec<Line>)
        requires
            self.well_formed(),
        ensures
            forall|i: int| 0 <= i < r@.len() ==> fits(#[trigger] r@[i], self.cells()),
            r@.len() >= self.emitted().len(),
            forall|i: int| 0 <= i < self.emitted().len() ==> #[trigger] r@[i] == self.emitted()[i],
            self.settled() ==> r@ == self.emitted(),
            r@.map_values(|l: Line| (l.text@, l.verbatim)) == finished(self.layout(), self.cells()).0,
    {
        let mut this = self;
        this.finish();
        this.lines
    }

    /// Finish and return the text: every line followed by a newline.
    pub fn into_string(self) -> (r: String)
        requires
            self.well_formed(),
        ensures
            r@ == text_of(finished(self.layout(), self.cells()).0),
    {
        let lines = self.into_lines();
        let ghost lv = lines@.map_values(|l: Line| (l.text@, l.verbatim));
        let mut out: Vec<char> = Vec::new();
        let n = lines.len();
        let mut i: usize = 0;
        while i < n
            invariant
                n == lines@.len(),
                i <= n,
                lv == lines@.map_values(|l: Line| (l.text@, l.verbatim)),
                out@ == text_of(lv.take(i as int)),
            decreases n - i,
        {
            let mut t = slice_chars(&lines[i].text, 0, lines[i].text.len());
            out.append(&mut t);
            out.push('\n');
            assert(lv.take(i + 1).drop_last() =~= lv.take(i as int));
            i = i + 1;
        }
        assert(lv.take(n as int) =~= lv);
        string_of(&out)
    }

    /// The line at which the first fragment named `name` starts, if one
    /// was recorded.
    pub fn fragment_line(&self, name: &str) -> (r: Option<usize>)
        ensures
            r == first_fragment(self.fragments(), name@),
    {
        let key = chars_of(name);
        let n = self.frags.len();
        let mut i: usize = 0;
        assert(self.fragments().skip(0) =~= self.fragments());
        while i < n
            invariant
                n == self.frags@.len(),
                i <= n,
                key@ == name@,
                first_fragment(self.fragments(), name@) == first_fragment(self.fragments().skip(i as int), name@),
            decreases n - i,
        {
            assert(self.fragments().skip(i as int).drop_first() =~= self.fragments().skip(i + 1));
            if same_chars(&self.frags[i].0, &key) {
                return Some(self.frags[i].1);
            }
            i = i + 1;
        }
        None
    }

    /// Add inline text: see `add_inline_text`.
    fn add_text(&mut self, text: &str)
        requires
            old(self).well_formed(),
        ensures
            final(self).well_formed(),
            final(self).same_depths(old(self)),
            final(self).count == saturated(old(self).count + utf8_len(text@)),
            old(self).content() ==> final(self).content(),
            (exists|i: int| 0 <= i < text@.len() && !is_white_space(#[trigger] text@[i])) ==> final(self).content(),
            !old(self).content() && old(self).pres == 0
                && (forall|i: int| 0 <= i < text@.len() ==> is_white_space(#[trigger] text@[i]))
                ==> !final(self).content(),
            old(self).pres == 0 ==> final(self).layout() == fed(old(self).layout(), text@, old(self).width as nat),
            old(self).pres > 0 ==> final(self).layout() == verbatim(placed(old(self).layout(), old(self).width as nat), text@),
    {
        let chars = chars_of(text);
        self.count = self.count.saturating_add(utf8_count(&chars));
        if self.pres > 0 {
            self.place_word();
            self.push_verbatim(&chars);
            return;
        }
        let n = chars.len();
        let mut i: usize = 0;
        assert(text@.skip(0) =~= text@);
        while i < n
            invariant
                self.well_formed(),
                self.same_depths(old(self)),
                self.count == saturated(old(self).count + utf8_len(text@)),
                old(self).content() ==> self.content(),
                chars@ == text@,
                fed(self.layout(), text@.skip(i as int), self.width as nat) == fed(old(self).layout(), text@, old(self).width as nat),
                (exists|k: int| 0 <= k < i && !is_white_space(#[trigger] text@[k])) ==> self.content(),
                !old(self).content() && (forall|k: int| 0 <= k < i ==> is_white_space(#[trigger] text@[k]))
                    ==> !self.content(),
                n == chars@.len(),
                i <= n,
            decreases n - i,
        {
            let c = chars[i];
            assert(text@.skip(i as int).drop_first() =~= text@.skip(i + 1));
            let ghost before = self.layout();
            if char_is_whitespace(c) {
                self.place_word();
            } else {
                self.word.push(c);
                assert(self.layout() =~= (before.0, before.1, before.2, before.3.push(c)));
            }
            i = i + 1;
        }
    }

    /// Place the pending word and end the line being filled, unless it is
    /// empty: afterwards nothing is pending.
    pub fn finish(&mut self)
        requires
            old(self).well_formed(),
        ensures
            final(self).well_formed(),
            final(self).settled(),
            final(self).same_scopes(old(self)),
            old(self).content() <==> final(self).content(),
            final(self).emitted().len() >= old(self).emitted().len(),
            forall|i: int| 0 <= i < old(self).emitted().len() ==> #[trigger] final(self).emitted()[i] == old(self).emitted()[i],
            old(self).settled() ==> *final(self) == *old(self),
            final(self).layout() == finished(old(self).layout(), old(self).cells()),
            forall|n: nat| #[trigger] final(self).border_merges(n) == old(self).border_merges(n),
    {
        self.place_word();
        if self.current.len() > 0 {
            self.flush_line();
        }
    }
}

/// The lines that column `c` holds once finished.
pub open spec fn final_lines(c: TextRenderer) -> Seq<(Seq<char>, bool)> {
    finished(c.layout(), c.cells()).0
}

/// Whether every finished line of every column fits the column, and a row
/// of the columns fits width `w`.
pub open spec fn columns_fit(cols: Seq<TextRenderer>, w: nat) -> bool {
    &&& row_width(cols) <= w
    &&& forall|j: int, i: int| 0 <= j < cols.len() && 0 <= i < final_lines(cols[j]).len()
        ==> (#[trigger] final_lines(cols[j])[i]).0.len() <= cols[j].cells()
}

/// The largest number of finished lines among `cols`.
pub open spec fn most_lines(cols: Seq<TextRenderer>) -> nat
    decreases cols.len(),
{
    if cols.len() == 0 {
        0
    } else {
        let m = most_lines(cols.drop_last());
        let l = final_lines(cols.last()).len();
        if l > m { l } else { m }
    }
}

/// The width of a row of `cols`: their widths with one border cell between
/// each two.
pub open spec fn row_width(cols: Seq<TextRenderer>) -> nat
    decreases cols.len(),
{
    if cols.len() == 0 {
        0
    } else if cols.len() == 1 {
        cols[0].cells()
    } else {
        row_width(cols.drop_last()) + 1 + cols.last().cells()
    }
}

/// Columns with the same finished lines and widths give the same rows.
proof fn lemma_columns_agree(a: Seq<TextRenderer>, b: Seq<TextRenderer>)
    requires
        a.len() == b.len(),
        forall|k: int| 0 <= k < a.len() ==> final_lines(#[trigger] a[k]) == final_lines(b[k]) && a[k].cells() == b[k].cells(),
    ensures
        most_lines(a) == most_lines(b),
        row_width(a) == row_width(b),
        forall|r: int| #[trigger] row_text(a, r) == row_text(b, r),
    decreases a.len(),
{
    if a.len() > 0 {
        assert forall|k: int| 0 <= k < a.drop_last().len() implies final_lines(#[trigger] a.drop_last()[k])
            == final_lines(b.drop_last()[k]) && a.drop_last()[k].cells() == b.drop_last()[k].cells() by {
            assert(a.drop_last()[k] == a[k]);
            assert(b.drop_last()[k] == b[k]);
        }
        lemma_columns_agree(a.drop_last(), b.drop_last());
        assert(final_lines(a.last()) == final_lines(b.last()));
        assert forall|r: int| #[trigger] row_text(a, r) == row_text(b, r) by {
            assert(cell_text(a.last(), r) == cell_text(b.last(), r));
            assert(row_text(a.drop_last(), r) == row_text(b.drop_last(), r));
            if a.len() == 1 {
                assert(a[0] == a.last() && b[0] == b.last());
            }
        }
    }
}

/// A row of the first `k` columns is no wider than a row of all of them.
proof fn lemma_row_width_prefix(cols: Seq<TextRenderer>, k: int)
    requires
        1 <= k <= cols.len(),
    ensures
        row_width(cols.take(k)) <= row_width(cols),
    decreases cols.len(),
{
    if k == cols.len() {
        assert(cols.take(k) =~= cols);
    } else {
        assert(cols.drop_last().take(k) =~= cols.take(k));
        lemma_row_width_prefix(cols.drop_last(), k);
    }
}

/// Every line that a renderer has emitted and that is not verbatim (from a
/// pre region, a block line, or a prefix that overflows) is at most as wide
/// as the renderer: wrapping never produces a longer line.
pub proof fn lemma_lines_fit(r: &TextRenderer)
    requires
        r.inv(),
    ensures
        forall|i: int| 0 <= i < r.emitted().len() ==> (#[trigger] r.emitted()[i]).verbatim
            || r.emitted()[i].text@.len() <= r.cells(),
{
    assert forall|i: int| 0 <= i < r.emitted().len() implies (#[trigger] r.emitted()[i]).verbatim
        || r.emitted()[i].text@.len() <= r.cells() by {
        assert(fits(r.lines@[i], r.width as nat));
    }
}

/// Row `r` of column `c`: its finished line `r`, or nothing past its last
/// line, padded with spaces to the column's width.
pub open spec fn cell_text(c: TextRenderer, r: int) -> Seq<char> {
    let t = if r < final_lines(c).len() { final_lines(c)[r].0 } else { Seq::<char>::empty() };
    t + Seq::new((c.cells() - t.len()) as nat, |i: int| ' ')
}

/// Row `r` of `cols`: their cells joined by vertical borders.
pub open spec fn row_text(cols: Seq<TextRenderer>, r: int) -> Seq<char>
    decreases cols.len(),
{
    if cols.len() == 0 {
        Seq::empty()
    } else if cols.len() == 1 {
        cell_text(cols[0], r)
    } else {
        row_text(cols.drop_last(), r).push('\u{2502}') + cell_text(cols.last(), r)
    }
}

impl Renderer for TextRenderer {
    closed spec fn inv(&self) -> bool {
        self.well_formed()
    }

    closed spec fn units(&self) -> nat {
        self.count as nat
    }

    open spec fn has_content(&self) -> bool {
        self.layout().0.len() > 0 || self.layout().1.len() > 0 || self.layout().3.len() > 0
    }

    closed spec fn depth(&self, k: Nesting) -> nat {
        match k {
            Nesting::Block => self.marks@.len(),
            Nesting::Pre => self.pres as nat,
            Nesting::Link => self.links as nat,
            Nesting::Emphasis => self.emphases as nat,
            Nesting::Strong => self.strongs as nat,
            Nesting::Code => self.codes as nat,
        }
    }

    closed spec fn cells(&self) -> nat {
        self.width as nat
    }

    /// End the line being filled, then add a blank line.
    fn add_empty_line(&mut self)
        ensures
            final(self).units() == old(self).units(),
            final(self).layout() == flushed(finished(old(self).layout(), old(self).cells())),
    {
        self.finish();
        self.flush_line();
    }

    /// A new empty renderer of `width` cells.
    fn new_sub_renderer(&self, width: usize) -> (r: Self)
        ensures
            r.cells() == width,
            r.settled(),
            r.emitted().len() == 0,
            r.fragments().len() == 0,
            forall|n: nat| !#[trigger] r.border_merges(n),
    {
        TextRenderer {
            width,
            lines: Vec::new(),
            current: Vec::new(),
            current_verbatim: false,
            word: Vec::new(),
            count: 0,
            collapsible: None,
            frags: Vec::new(),
            marks: Vec::new(),
            pres: 0,
            links: 0,
            emphases: 0,
            strongs: 0,
            codes: 0,
        }
    }

    /// Open a block on a line of its own.
    fn start_block(&mut self)
        ensures
            final(self).layout() == finished(old(self).layout(), old(self).cells()),
    {
        self.finish();
        self.marks.push((self.pres, self.links, self.emphases, self.strongs, self.codes));
    }

    /// Close the innermost block; what follows starts on a new line. It is
    /// refused while a pre region or a span opened inside it is open.
    fn end_block(&mut self) -> (r: Result<(), RenderError>)
        ensures
            r is Ok ==> final(self).layout() == finished(old(self).layout(), old(self).cells()),
            r is Err <==> old(self).depth(Nesting::Block) == 0 || old(self).open_inside_block(),
            old(self).depth(Nesting::Block) > 0 && old(self).pre_open_inside_block()
                ==> r == Err::<(), RenderError>(RenderError::UnbalancedPre),
            old(self).depth(Nesting::Block) > 0 && !old(self).pre_open_inside_block() && old(self).open_inside_block()
                ==> r == Err::<(), RenderError>(RenderError::UnbalancedAnnotation),
    {
        let n = self.marks.len();
        if n == 0 {
            return Err(RenderError::UnbalancedBlock);
        }
        let m = self.marks[n - 1];
        if self.pres > m.0 {
            return Err(RenderError::UnbalancedPre);
        }
        if self.links > m.1 || self.emphases > m.2 || self.strongs > m.3 || self.codes > m.4 {
            return Err(RenderError::UnbalancedAnnotation);
        }
        self.finish();
        self.marks.pop();
        Ok(())
    }

    /// Place the pending word and end the line being filled, unless it is
    /// empty.
    fn new_line(&mut self)
        ensures
            final(self).units() == old(self).units(),
            final(self).settled(),
            final(self).layout() == finished(old(self).layout(), old(self).cells()),
    {
        self.finish();
    }

    /// Place the pending word and end the line being filled, even when it
    /// is empty.
    fn new_line_hard(&mut self)
        ensures
            final(self).units() == old(self).units(),
            final(self).layout() == flushed(placed(old(self).layout(), old(self).cells())),
    {
        self.place_word();
        self.flush_line();
    }

    /// Add a border line across the full width. Right after columns that
    /// were composed with `collapse`, their closing border serves, and no
    /// second one is added.
    fn add_horizontal_border(&mut self)
        ensures
            final(self).units() == old(self).units(),
            ({
                let f = finished(old(self).layout(), old(self).cells());
                if old(self).border_merges(f.0.len()) {
                    final(self).layout() == f
                } else {
                    final(self).layout() == (f.0.push((border_line(old(self).cells()), false)), Seq::<char>::empty(), false, Seq::<char>::empty())
                }
            }),
    {
        let ghost pre = *self;
        self.finish();
        let ghost f = self.layout();
        assert(f.0.len() == self.lines@.len());
        assert(self.border_merges(f.0.len()) == pre.border_merges(f.0.len()));
        if self.collapsible == Some(self.lines.len()) {
            self.collapsible = None;
            assert(self.layout() == f);
        } else {
            self.current = border(self.width);
            assert(self.layout() == (f.0, border_line(self.width as nat), false, Seq::<char>::empty()));
            self.flush_line();
        }
    }

    /// Open a pre region.
    fn start_pre(&mut self)
        ensures
            final(self).layout() == old(self).layout(),
    {
        self.pres = self.pres + 1;
    }

    /// Close the innermost pre region.
    fn end_pre(&mut self) -> (r: Result<(), RenderError>)
        ensures
            final(self).layout() == old(self).layout(),
    {
        if self.pres == 0 {
            return Err(RenderError::UnbalancedPre);
        }
        self.pres = self.pres - 1;
        Ok(())
    }

    /// Add `text` verbatim on lines of its own, then a line break.
    fn add_preformatted_block(&mut self, text: &str)
        ensures
            final(self).units() == saturated(old(self).units() + utf8_len(text@) as int),
            final(self).layout() == flushed(verbatim(finished(old(self).layout(), old(self).cells()), text@)),
    {
        self.finish();
        let chars = chars_of(text);
        self.count = self.count.saturating_add(utf8_count(&chars));
        self.push_verbatim(&chars);
        self.flush_line();
    }

    /// Add inline text. Outside pre regions it is split into words at
    /// whitespace and the words are wrapped; text without whitespace
    /// between two calls continues the same word. Inside a pre region it is
    /// kept verbatim.
    fn add_inline_text(&mut self, text: &str)
        ensures
            final(self).units() == saturated(old(self).units() + utf8_len(text@) as int),
            !old(self).has_content() && old(self).depth(Nesting::Pre) == 0
                && (forall|i: int| 0 <= i < text@.len() ==> is_white_space(#[trigger] text@[i]))
                ==> !final(self).has_content(),
            old(self).depth(Nesting::Pre) == 0 ==> final(self).layout() == fed(old(self).layout(), text@, old(self).cells()),
            old(self).depth(Nesting::Pre) > 0 ==> final(self).layout() == verbatim(placed(old(self).layout(), old(self).cells()), text@),
    {
        self.add_text(text)
    }

    /// The width in character cells.
    fn width(&self) -> (r: usize) {
        self.width
    }

    /// Add `line` as a whole verbatim line, then a line break.
    fn add_block_line(&mut self, line: &str)
        ensures
            final(self).units() == saturated(old(self).units() + utf8_len(line@) as int),
            final(self).layout() == (finished(old(self).layout(), old(self).cells()).0.push((line@, line@.len() > 0)),
                Seq::<char>::empty(), false, Seq::<char>::empty()),
    {
        self.finish();
        let chars = chars_of(line);
        self.count = self.count.saturating_add(utf8_count(&chars));
        self.current = chars;
        self.current_verbatim = self.current.len() > 0;
        self.flush_line();
    }

    /// Append the lines of `other` after the line being filled, each
    /// preceded by the prefix at its position. A line that the prefix makes
    /// wider than this renderer is kept verbatim.
    fn append_subrender(&mut self, other: Self, prefixes: &[&str])
        ensures
            final(self).units() == saturated(old(self).units() + other.units() as int),
            final(self).layout() == (finished(old(self).layout(), old(self).cells()).0
                + prefixed(finished(other.layout(), other.cells()).0, prefixes@.map_values(|p: &str| p@), old(self).cells()),
                Seq::<char>::empty(), false, Seq::<char>::empty()),
    {
        self.finish();
        let ghost f = self.layout();
        let ghost oc = other.count;
        let mut other = other;
        other.finish();
        let ghost g = other.layout();
        let ghost ps = prefixes@.map_values(|p: &str| p@);
        let ghost all = prefixed(g.0, ps, self.width as nat);
        self.count = self.count.saturating_add(other.count);
        let n = other.lines.len();
        let mut i: usize = 0;
        while i < n
            invariant
                self.well_formed(),
                self.settled(),
                self.width == old(self).width,
                self.marks@ == old(self).marks@,
                self.pres == old(self).pres,
                self.links == old(self).links,
                self.emphases == old(self).emphases,
                self.strongs == old(self).strongs,
                self.codes == old(self).codes,
                self.count == saturated(old(self).count + oc),
                old(self).content() ==> self.content(),
                i > 0 ==> self.content(),
                n == other.lines@.len(),
                g == other.layout(),
                ps == prefixes@.map_values(|p: &str| p@),
                all == prefixed(g.0, ps, self.width as nat),
                self.layout() == (f.0 + all.take(i as int), Seq::<char>::empty(), false, Seq::<char>::empty()),
                i <= n,
            decreases n - i,
        {
            let mut text: Vec<char> = if i < prefixes.len() {
                chars_of(prefixes[i])
            } else {
                Vec::new()
            };
            let mut body = slice_chars(&other.lines[i].text, 0, other.lines[i].text.len());
            text.append(&mut body);
            let verbatim = text.len() > 0 && (other.lines[i].verbatim || text.len() > self.width);
            assert(text@ == all[i as int].0);
            self.current = text;
            self.current_verbatim = verbatim;
            self.flush_line();
            assert(f.0 + all.take(i + 1) =~= (f.0 + all.take(i as int)).push(all[i as int]));
            i = i + 1;
        }
        assert(all.take(n as int) =~= all);
    }

    /// Compose finished columns side by side; see `compose_columns`.
    fn append_columns_with_borders(&mut self, cols: Vec<Self>, collapse: bool) -> (r: Result<(), RenderError>)
        ensures
            final(self).units() == old(self).units(),
            r is Ok <==> columns_fit(cols@, old(self).cells()),
            r is Ok ==> final(self).layout().0.len() == finished(old(self).layout(), old(self).cells()).0.len() + (if collapse { 0int } else { 1int }) + most_lines(cols@) + 1,
            r is Ok ==> forall|i: int| 0 <= i < finished(old(self).layout(), old(self).cells()).0.len() ==> #[trigger] final(self).layout().0[i] == finished(old(self).layout(), old(self).cells()).0[i],
            r is Ok && !collapse ==> final(self).layout().0[finished(old(self).layout(), old(self).cells()).0.len() as int] == (border_line(old(self).cells()), false),
            r is Ok ==> forall|k: int| 0 <= k < most_lines(cols@) ==> final(self).layout().0[finished(old(self).layout(), old(self).cells()).0.len() + (if collapse { 0int } else { 1int }) + k]
                == (#[trigger] row_text(cols@, k), false),
            r is Ok ==> final(self).layout().0.last() == (border_line(old(self).cells()), false),
            r is Ok ==> final(self).settled(),
            r is Ok && collapse ==> final(self).border_merges(final(self).layout().0.len()),
    {
        self.compose_columns(cols, collapse)
    }

    /// Whether nothing has been emitted or is pending.
    fn empty(&self) -> (r: bool) {
        self.lines.len() == 0 && self.current.len() == 0 && self.word.len() == 0
    }

    /// The number of characters of text handed in so far (saturating).
    fn text_len(&self) -> (r: usize) {
        self.count
    }

    /// Open a hyperlink; plain text does not show its target.
    fn start_link(&mut self, target: &str)
        ensures
            final(self).layout() == old(self).layout(),
    {
        self.links = self.links + 1;
    }

    /// Close the innermost hyperlink.
    fn end_link(&mut self) -> (r: Result<(), RenderError>)
        ensures
            final(self).layout() == old(self).layout(),
    {
        if self.links == 0 {
            return Err(RenderError::UnbalancedAnnotation);
        }
        self.links = self.links - 1;
        Ok(())
    }

    /// Open an emphasised span.
    fn start_emphasis(&mut self)
        ensures
            final(self).layout() == old(self).layout(),
    {
        self.emphases = self.emphases + 1;
    }

    /// Close the innermost emphasised span.
    fn end_emphasis(&mut self) -> (r: Result<(), RenderError>)
        ensures
            final(self).layout() == old(self).layout(),
    {
        if self.emphases == 0 {
            return Err(RenderError::UnbalancedAnnotation);
        }
        self.emphases = self.emphases - 1;
        Ok(())
    }

    /// Open a strong span.
    fn start_strong(&mut self)
        ensures
            final(self).layout() == old(self).layout(),
    {
        self.strongs = self.strongs + 1;
    }

    /// Close the innermost strong span.
    fn end_strong(&mut self) -> (r: Result<(), RenderError>)
        ensures
            final(self).layout() == old(self).layout(),
    {
        if self.strongs == 0 {
            return Err(RenderError::UnbalancedAnnotation);
        }
        self.strongs = self.strongs - 1;
        Ok(())
    }

    /// Open a code span.
    fn start_code(&mut self)
        ensures
            final(self).layout() == old(self).layout(),
    {
        self.codes = self.codes + 1;
    }

    /// Close the innermost code span.
    fn end_code(&mut self) -> (r: Result<(), RenderError>)
        ensures
            final(self).layout() == old(self).layout(),
    {
        if self.codes == 0 {
            return Err(RenderError::UnbalancedAnnotation);
        }
        self.codes = self.codes - 1;
        Ok(())
    }

    /// Add an image as its title, wrapped, then a line break.
    fn add_image(&mut self, title: &str)
        ensures
            final(self).units() == saturated(old(self).units() + utf8_len(title@) as int),
            old(self).depth(Nesting::Pre) == 0 ==> final(self).layout()
                == flushed(placed(fed(old(self).layout(), title@, old(self).cells()), old(self).cells())),
            old(self).depth(Nesting::Pre) > 0 ==> final(self).layout()
                == flushed(placed(verbatim(placed(old(self).layout(), old(self).cells()), title@), old(self).cells())),
    {
        self.add_text(title);
        self.place_word();
        self.flush_line();
    }

    /// Record that fragment `fragname` starts at the line that is being
    /// filled, or that the next content starts.
    fn record_frag_start(&mut self, fragname: &str)
        ensures
            final(self).layout() == old(self).layout(),
            final(self).fragments() == old(self).fragments().push((fragname@, old(self).emitted().len() as usize)),
    {
        let name = chars_of(fragname);
        let at = self.lines.len();
        self.frags.push((name, at));
        assert(self.fragments() =~= old(self).fragments().push((fragname@, at)));
    }
}

} // verus!
