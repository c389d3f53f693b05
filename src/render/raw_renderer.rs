//! A renderer that outputs plain raw text, without layout or annotations.
//!
//! It ignores width, indentation and table geometry: every operation that
//! ends a unit of output appends a single separator, inline text is
//! concatenated as it comes, and the final text has every run of whitespace
//! collapsed to one space. Scopes are still counted, so that misuse of the
//! interface is reported as it is by any other backend.

use vstd::prelude::*;

use super::chars::{
    char_is_whitespace, chars_of, is_white_space, lemma_utf8_len_concat, lemma_utf8_len_one, saturated,
    string_of, utf8_count, utf8_len,
};
use super::{Nesting, RenderError, Renderer};

verus! {

/// `s` with every maximal run of whitespace replaced by a single space;
/// `in_run` says whether a run is already under way before `s`.
pub open spec fn collapse_from(s: Seq<char>, in_run: bool) -> Seq<char>
    decreases s.len(),
{
    if s.len() == 0 {
        Seq::empty()
    } else if is_white_space(s[0]) {
        if in_run {
            collapse_from(s.drop_first(), true)
        } else {
            seq![' '] + collapse_from(s.drop_first(), true)
        }
    } else {
        seq![s[0]] + collapse_from(s.drop_first(), false)
    }
}

/// `s` with every maximal run of whitespace replaced by a single space.
pub open spec fn collapse_whitespace(s: Seq<char>) -> Seq<char> {
    collapse_from(s, false)
}

/// Collapsing whitespace never makes the text longer in UTF-8.
proof fn lemma_collapse_shorter(s: Seq<char>, in_run: bool)
    ensures
        utf8_len(collapse_from(s, in_run)) <= utf8_len(s),
    decreases s.len(),
{
    if s.len() > 0 {
        let rest = s.drop_first();
        assert(s =~= seq![s[0]] + rest);
        lemma_utf8_len_concat(seq![s[0]], rest);
        lemma_utf8_len_one(s[0]);
        lemma_collapse_shorter(rest, true);
        lemma_collapse_shorter(rest, false);
        if is_white_space(s[0]) {
            if !in_run {
                lemma_utf8_len_concat(seq![' '], collapse_from(rest, true));
                lemma_utf8_len_one(' ');
                assert(' ' as u32 == 32u32);
            }
        } else {
            lemma_utf8_len_concat(seq![s[0]], collapse_from(rest, false));
        }
    }
}

/// A raw renderer's text is what its operations appended, in order, onto
/// the empty text of `new`; each operation's contract gives its piece, and
/// the piece is empty for exactly those that append nothing visible
/// (scopes, `new_line`, borders, fragments, empty inline text). So the
/// renderer is `empty` exactly when every operation so far appended
/// nothing, and `text_len` is the UTF-8 length of all the pieces.
pub proof fn lemma_empty_iff_nothing_appended(r: RawRenderer, pieces: Seq<Seq<char>>)
    requires
        r@ == pieces.flatten(),
    ensures
        !r.has_content() <==> forall|i: int| 0 <= i < pieces.len() ==> (#[trigger] pieces[i]).len() == 0,
        r.units() == saturated(utf8_len(pieces.flatten()) as int),
{
    lemma_flatten_empty(pieces);
}

/// A flattened sequence is empty exactly when every part is.
proof fn lemma_flatten_empty(pieces: Seq<Seq<char>>)
    ensures
        pieces.flatten().len() == 0 <==> forall|i: int| 0 <= i < pieces.len() ==> (#[trigger] pieces[i]).len() == 0,
    decreases pieces.len(),
{
    if pieces.len() > 0 {
        lemma_flatten_empty(pieces.drop_first());
        assert forall|i: int| 0 <= i < pieces.drop_first().len() implies #[trigger] pieces.drop_first()[i] == pieces[i + 1] by {}
        if pieces.flatten().len() == 0 {
            assert forall|i: int| 0 <= i < pieces.len() implies (#[trigger] pieces[i]).len() == 0 by {
                if i > 0 {
                    assert(pieces.drop_first()[i - 1] == pieces[i]);
                }
            }
        }
    }
}

/// The texts of `cols` in order, each followed by a separator.
pub open spec fn joined(cols: Seq<RawRenderer>) -> Seq<char>
    decreases cols.len(),
{
    if cols.len() == 0 {
        Seq::empty()
    } else {
        (joined(cols.drop_last()) + cols.last()@).push(' ')
    }
}

/// A renderer which just outputs plain raw text without annotations.
pub struct RawRenderer {
    buffer: Vec<char>,
    bytes: usize,
    marks: Vec<(usize, usize, usize, usize, usize)>,
    pres: usize,
    links: usize,
    emphases: usize,
    strongs: usize,
    codes: usize,
}

impl View for RawRenderer {
    type V = Seq<char>;

    /// The text accumulated so far, before whitespace is collapsed.
    closed spec fn view(&self) -> Seq<char> {
        self.buffer@
    }
}

impl RawRenderer {
    /// Whether a pre region opened inside the innermost block is open.
    pub closed spec fn pre_open_inside_block(&self) -> bool {
        self.marks@.len() > 0 && self.pres > self.marks@.last().0
    }

    /// Whether a pre region or a span opened inside the innermost block is
    /// open.
    pub closed spec fn open_inside_block(&self) -> bool {
        let m = self.marks@.last();
        self.marks@.len() > 0 && (self.pres > m.0 || self.links > m.1 || self.emphases > m.2
            || self.strongs > m.3 || self.codes > m.4)
    }

    /// Construct a new empty RawRenderer.
    pub fn new() -> (r: Self)
        ensures
            r@ == Seq::<char>::empty(),
            r.inv(),
            !r.has_content(),
            r.units() == 0,
            forall|k: Nesting| #[trigger] r.depth(k) == 0,
    {
        RawRenderer { buffer: Vec::new(), bytes: 0, marks: Vec::new(), pres: 0, links: 0, emphases: 0, strongs: 0, codes: 0 }
    }

    /// Consumes this renderer and returns its text with every run of
    /// whitespace collapsed to a single space.
    pub fn into_string(self) -> (r: String)
        ensures
            r@ == collapse_whitespace(self@),
            utf8_len(r@) <= utf8_len(self@),
            r@.len() == 0 <==> self@.len() == 0,
    {
        let mut output: Vec<char> = Vec::with_capacity(self.buffer.len());
        let mut whitespace = false;
        let n = self.buffer.len();
        let mut i: usize = 0;
        assert(self.buffer@.subrange(0, n as int) =~= self.buffer@);
        assert(output@ + collapse_from(self.buffer@, false) =~= collapse_from(self.buffer@, false));
        while i < n
            invariant
                n == self.buffer@.len(),
                i <= n,
                output@ + collapse_from(self.buffer@.subrange(i as int, n as int), whitespace)
                    == collapse_from(self.buffer@, false),
            decreases n - i,
        {
            let c = self.buffer[i];
            let ghost rest = self.buffer@.subrange(i as int, n as int);
            assert(rest.drop_first() =~= self.buffer@.subrange(i + 1, n as int));
            if char_is_whitespace(c) {
                if !whitespace {
                    whitespace = true;
                    output.push(' ');
                }
            } else {
                whitespace = false;
                output.push(c);
            }
            i = i + 1;
        }
        assert(self.buffer@.subrange(n as int, n as int) =~= Seq::<char>::empty());
        proof {
            lemma_collapse_shorter(self@, false);
        }
        string_of(&output)
    }

    /// Append the characters of `text` to the buffer.
    fn push_text(&mut self, text: &str)
        requires
            old(self).inv(),
        ensures
            final(self).inv(),
            final(self)@ == old(self)@ + text@,
            utf8_len(final(self)@) == utf8_len(old(self)@) + utf8_len(text@),
            final(self).marks@ == old(self).marks@,
            final(self).pres == old(self).pres,
            final(self).links == old(self).links,
            final(self).emphases == old(self).emphases,
            final(self).strongs == old(self).strongs,
            final(self).codes == old(self).codes,
    {
        let mut chars = chars_of(text);
        self.bytes = self.bytes.saturating_add(utf8_count(&chars));
        self.buffer.append(&mut chars);
        proof {
            lemma_utf8_len_concat(old(self)@, text@);
        }
    }
}

impl Renderer for RawRenderer {
    closed spec fn inv(&self) -> bool {
        self.bytes == saturated(utf8_len(self@) as int)
    }

    open spec fn units(&self) -> nat {
        saturated(utf8_len(self@) as int)
    }

    open spec fn has_content(&self) -> bool {
        self@.len() > 0
    }

    closed spec fn depth(&self, k: Nesting) -> nat {
        match k {
            Nesting::Block => self.marks@.len(),
            Nesting::Pre => self.pres as nat,
            Nesting::Link => self.links as nat,
            Nesting::Emphasis => self.emphases as nat,
            Nesting::Strong => self.strongs as nat,
            Nesting::Code => self.codes as nat,
        }
    }

    open spec fn cells(&self) -> nat {
        80
    }

    /// Add an empty line to the output (between blocks).
    fn add_empty_line(&mut self)
        ensures
            final(self)@ == old(self)@.push(' '),
    {
        self.new_line_hard()
    }

    /// Create an independent, empty renderer for nested content.
    fn new_sub_renderer(&self, width: usize) -> (r: Self)
        ensures
            r@ == Seq::<char>::empty(),
    {
        RawRenderer::new()
    }

    /// Open a block, noting which scopes are open outside it.
    fn start_block(&mut self)
        ensures
            final(self)@ == old(self)@,
    {
        self.marks.push((self.pres, self.links, self.emphases, self.strongs, self.codes));
    }

    /// Close the innermost open block. It is refused while a pre region or
    /// a span opened inside it is open.
    fn end_block(&mut self) -> (r: Result<(), RenderError>)
        ensures
            final(self)@ == old(self)@,
            r is Err <==> old(self).depth(Nesting::Block) == 0 || old(self).open_inside_block(),
            old(self).depth(Nesting::Block) > 0 && old(self).pre_open_inside_block()
                ==> r == Err::<(), RenderError>(RenderError::UnbalancedPre),
            old(self).depth(Nesting::Block) > 0 && !old(self).pre_open_inside_block() && old(self).open_inside_block()
                ==> r == Err::<(), RenderError>(RenderError::UnbalancedAnnotation),
    {
        let n = self.marks.len();
        if n == 0 {
            return Err(RenderError::UnbalancedBlock);
        }
        let m = self.marks[n - 1];
        if self.pres > m.0 {
            return Err(RenderError::UnbalancedPre);
        }
        if self.links > m.1 || self.emphases > m.2 || self.strongs > m.3 || self.codes > m.4 {
            return Err(RenderError::UnbalancedAnnotation);
        }
        self.marks.pop();
        Ok(())
    }

    /// Start a new line if necessary: the raw text has no lines.
    fn new_line(&mut self)
        ensures
            final(self)@ == old(self)@,
    {
    }

    /// Start a new line: a single separator.
    fn new_line_hard(&mut self)
        ensures
            final(self)@ == old(self)@.push(' '),
    {
        self.buffer.push(' ');
        self.bytes = self.bytes.saturating_add(1);
        proof {
            lemma_utf8_len_concat(old(self)@, seq![' ']);
            lemma_utf8_len_one(' ');
            assert(' ' as u32 == 32u32);
            assert(old(self)@.push(' ') =~= old(self)@ + seq![' ']);
        }
    }

    /// Add a horizontal border: the raw text has none.
    fn add_horizontal_border(&mut self)
        ensures
            final(self)@ == old(self)@,
    {
    }

    /// Open a pre region.
    fn start_pre(&mut self)
        ensures
            final(self)@ == old(self)@,
    {
        self.pres = self.pres + 1;
    }

    /// Close the innermost pre region.
    fn end_pre(&mut self) -> (r: Result<(), RenderError>)
        ensures
            final(self)@ == old(self)@,
    {
        if self.pres == 0 {
            Err(RenderError::UnbalancedPre)
        } else {
            self.pres = self.pres - 1;
            Ok(())
        }
    }

    /// Add a block of preformatted text, then a separator.
    fn add_preformatted_block(&mut self, text: &str)
        ensures
            final(self)@ == (old(self)@ + text@).push(' '),
    {
        self.add_inline_text(text);
        self.new_line_hard()
    }

    /// Add inline text as it comes.
    fn add_inline_text(&mut self, text: &str)
        ensures
            final(self)@ == old(self)@ + text@,
    {
        self.push_text(text)
    }

    /// The width in character cells.
    fn width(&self) -> (r: usize)
        ensures
            r == 80,
    {
        80
    }

    /// Add a line, then a separator.
    fn add_block_line(&mut self, line: &str)
        ensures
            final(self)@ == (old(self)@ + line@).push(' '),
    {
        self.add_inline_text(line);
        self.new_line_hard()
    }

    /// Append the text of `other`, then a separator; prefixes are not shown.
    fn append_subrender(&mut self, other: Self, prefixes: &[&str])
        ensures
            final(self)@ == (old(self)@ + other@).push(' '),
    {
        self.bytes = self.bytes.saturating_add(other.bytes);
        let mut text = other.buffer;
        self.buffer.append(&mut text);
        proof {
            lemma_utf8_len_concat(old(self)@, other@);
        }
        self.new_line_hard()
    }

    /// Append the text of each column in order, each followed by a
    /// separator; borders are not shown.
    fn append_columns_with_borders(&mut self, cols: Vec<Self>, collapse: bool) -> (r: Result<(), RenderError>)
        ensures
            r is Ok,
            final(self)@ == old(self)@ + joined(cols@),
    {
        let mut cols = cols;
        let n = cols.len();
        let mut i: usize = 0;
        let ghost all = cols@;
        while i < n
            invariant
                n == all.len(),
                i <= n,
                cols@ == all.skip(i as int),
                self.inv(),
                forall|k: int| 0 <= k < all.len() ==> (#[trigger] all[k]).inv(),
                self@ == old(self)@ + joined(all.take(i as int)),
                forall|k: Nesting| #[trigger] self.depth(k) == old(self).depth(k),
            decreases n - i,
        {
            let col = cols.remove(0);
            proof {
                assert(cols@ =~= all.skip(i + 1));
                assert(all.take(i + 1).drop_last() =~= all.take(i as int));
            }
            self.append_subrender(col, &[]);
            i = i + 1;
        }
        proof {
            assert(all.take(n as int) =~= all);
            lemma_utf8_len_concat(old(self)@, joined(all));
        }
        Ok(())
    }

    /// Whether nothing has been emitted yet.
    fn empty(&self) -> (r: bool)
        ensures
            r == (self@.len() == 0),
    {
        self.buffer.len() == 0
    }

    /// The number of bytes of the text emitted so far, in UTF-8 (or the
    /// largest `usize` where that is larger).
    fn text_len(&self) -> (r: usize)
        ensures
            r == saturated(utf8_len(self@) as int),
    {
        self.bytes
    }

    /// Open a hyperlink; the target is not shown.
    fn start_link(&mut self, target: &str)
        ensures
            final(self)@ == old(self)@,
    {
        self.links = self.links + 1;
    }

    /// Close the innermost hyperlink.
    fn end_link(&mut self) -> (r: Result<(), RenderError>)
        ensures
            final(self)@ == old(self)@,
    {
        if self.links == 0 {
            Err(RenderError::UnbalancedAnnotation)
        } else {
            self.links = self.links - 1;
            Ok(())
        }
    }

    /// Open an emphasised span.
    fn start_emphasis(&mut self)
        ensures
            final(self)@ == old(self)@,
    {
        self.emphases = self.emphases + 1;
    }

    /// Close the innermost emphasised span.
    fn end_emphasis(&mut self) -> (r: Result<(), RenderError>)
        ensures
            final(self)@ == old(self)@,
    {
        if self.emphases == 0 {
            Err(RenderError::UnbalancedAnnotation)
        } else {
            self.emphases = self.emphases - 1;
            Ok(())
        }
    }

    /// Open a strong span.
    fn start_strong(&mut self)
        ensures
            final(self)@ == old(self)@,
    {
        self.strongs = self.strongs + 1;
    }

    /// Close the innermost strong span.
    fn end_strong(&mut self) -> (r: Result<(), RenderError>)
        ensures
            final(self)@ == old(self)@,
    {
        if self.strongs == 0 {
            Err(RenderError::UnbalancedAnnotation)
        } else {
            self.strongs = self.strongs - 1;
            Ok(())
        }
    }

    /// Open a code span.
    fn start_code(&mut self)
        ensures
            final(self)@ == old(self)@,
    {
        self.codes = self.codes + 1;
    }

    /// Close the innermost code span.
    fn end_code(&mut self) -> (r: Result<(), RenderError>)
        ensures
            final(self)@ == old(self)@,
    {
        if self.codes == 0 {
            Err(RenderError::UnbalancedAnnotation)
        } else {
            self.codes = self.codes - 1;
            Ok(())
        }
    }

    /// Add an image as its title, then a separator.
    fn add_image(&mut self, title: &str)
        ensures
            final(self)@ == (old(self)@ + title@).push(' '),
    {
        self.add_inline_text(title);
        self.new_line_hard()
    }

    /// Record a fragment start: the raw text keeps no positions.
    fn record_frag_start(&mut self, fragname: &str)
        ensures
            final(self)@ == old(self)@,
    {
    }
}

} // verus!
