//! The `Renderer` interface that every text backend implements, and the
//! error kinds that its operations report.

use vstd::prelude::*;

pub mod chars;
pub mod raw_renderer;
pub mod text_renderer;

use chars::is_white_space;

verus! {

/// The stack disciplines that a renderer tracks: blocks, pre regions, and
/// the four inline annotation categories.
#[derive(Clone, Copy, Debug, PartialEq, Eq, Structural)]
pub enum Nesting {
    Block,
    Pre,
    Link,
    Emphasis,
    Strong,
    Code,
}

/// A misuse of the renderer interface by its caller.
#[derive(Clone, Copy, Debug, PartialEq, Eq, Structural)]
pub enum RenderError {
    /// `end_block` with no open block.
    UnbalancedBlock,
    /// `end_pre` with no open pre region, or `end_block` while a pre region
    /// opened inside the block is open.
    UnbalancedPre,
    /// `end_link`, `end_emphasis`, `end_strong` or `end_code` with no open
    /// span of that category, or `end_block` while a span opened inside the
    /// block is open.
    UnbalancedAnnotation,
    /// A width too small to place a single character.
    InvalidWidth,
    /// A column whose content is wider than the width it was built for.
    ColumnWidthMismatch,
}

/// The error that closing a scope of kind `k` reports when none is open.
pub open spec fn unbalanced_error(k: Nesting) -> RenderError {
    match k {
        Nesting::Block => RenderError::UnbalancedBlock,
        Nesting::Pre => RenderError::UnbalancedPre,
        _ => RenderError::UnbalancedAnnotation,
    }
}

/// A backend for rendering a document tree into text.
///
/// A caller walks its document and issues these operations in document
/// order. Scopes (blocks, pre regions, annotation spans) must be closed in
/// the order they were opened; closing one that is not open is reported as
/// an error and changes nothing. A backend may also refuse to close a block
/// while a pre region or span opened inside it is still open.
pub trait Renderer: Sized {
    /// The renderer's internal consistency.
    spec fn inv(&self) -> bool;

    /// The number of text units emitted so far.
    spec fn units(&self) -> nat;

    /// Whether any content has been emitted.
    spec fn has_content(&self) -> bool;

    /// How many scopes of kind `k` are open.
    spec fn depth(&self, k: Nesting) -> nat;

    /// The width in character cells.
    spec fn cells(&self) -> nat;

    /// Add an empty line to the output (between blocks).
    fn add_empty_line(&mut self)
        requires
            old(self).inv(),
        ensures
            final(self).inv(),
            forall|j: Nesting| #[trigger] final(self).depth(j) == old(self).depth(j),
            final(self).units() >= old(self).units(),
            old(self).has_content() ==> final(self).has_content(),
            final(self).cells() == old(self).cells(),
            final(self).has_content(),
    ;

    /// Create an independent, empty renderer of the same kind for nested
    /// content of the given width.
    fn new_sub_renderer(&self, width: usize) -> (r: Self)
        requires
            width > 0,
        ensures
            r.inv(),
            !r.has_content(),
            r.units() == 0,
            forall|k: Nesting| #[trigger] r.depth(k) == 0,
    ;

    /// Open a block.
    fn start_block(&mut self)
        requires
            old(self).inv(),
            old(self).depth(Nesting::Block) < usize::MAX,
        ensures
            final(self).inv(),
            final(self).depth(Nesting::Block) == old(self).depth(Nesting::Block) + 1,
            forall|j: Nesting| j != Nesting::Block ==> #[trigger] final(self).depth(j) == old(self).depth(j),
            final(self).units() == old(self).units(),
            final(self).has_content() == old(self).has_content(),
            final(self).cells() == old(self).cells(),
    ;

    /// Close the innermost open block.
    fn end_block(&mut self) -> (r: Result<(), RenderError>)
        requires
            old(self).inv(),
        ensures
            final(self).inv(),
            old(self).depth(Nesting::Block) == 0 ==> r == Err::<(), RenderError>(RenderError::UnbalancedBlock),
            r is Err ==> *final(self) == *old(self) && (r == Err::<(), RenderError>(RenderError::UnbalancedBlock)
                || r == Err::<(), RenderError>(RenderError::UnbalancedPre)
                || r == Err::<(), RenderError>(RenderError::UnbalancedAnnotation)),
            r is Ok ==> final(self).depth(Nesting::Block) + 1 == old(self).depth(Nesting::Block),
            r is Ok ==> forall|j: Nesting| j != Nesting::Block ==> #[trigger] final(self).depth(j) == old(self).depth(j),
            final(self).units() == old(self).units(),
            final(self).has_content() == old(self).has_content(),
            final(self).cells() == old(self).cells(),
    ;

    /// Start a new line, unless already at the start of one.
    fn new_line(&mut self)
        requires
            old(self).inv(),
        ensures
            final(self).inv(),
            forall|j: Nesting| #[trigger] final(self).depth(j) == old(self).depth(j),
            final(self).units() >= old(self).units(),
            old(self).has_content() ==> final(self).has_content(),
            final(self).cells() == old(self).cells(),
    ;

    /// Start a new line unconditionally.
    fn new_line_hard(&mut self)
        requires
            old(self).inv(),
        ensures
            final(self).inv(),
            forall|j: Nesting| #[trigger] final(self).depth(j) == old(self).depth(j),
            final(self).units() >= old(self).units(),
            old(self).has_content() ==> final(self).has_content(),
            final(self).cells() == old(self).cells(),
            final(self).has_content(),
    ;

    /// Add a horizontal border line.
    fn add_horizontal_border(&mut self)
        requires
            old(self).inv(),
        ensures
            final(self).inv(),
            forall|j: Nesting| #[trigger] final(self).depth(j) == old(self).depth(j),
            final(self).units() >= old(self).units(),
            old(self).has_content() ==> final(self).has_content(),
            final(self).cells() == old(self).cells(),
    ;

    /// Open a pre region: until it is closed, whitespace is kept verbatim
    /// and nothing is wrapped. Pre regions nest.
    fn start_pre(&mut self)
        requires
            old(self).inv(),
            old(self).depth(Nesting::Pre) < usize::MAX,
        ensures
            final(self).inv(),
            final(self).depth(Nesting::Pre) == old(self).depth(Nesting::Pre) + 1,
            forall|j: Nesting| j != Nesting::Pre ==> #[trigger] final(self).depth(j) == old(self).depth(j),
            final(self).units() == old(self).units(),
            final(self).has_content() == old(self).has_content(),
            final(self).cells() == old(self).cells(),
    ;

    /// Close the innermost pre region.
    fn end_pre(&mut self) -> (r: Result<(), RenderError>)
        requires
            old(self).inv(),
        ensures
            final(self).inv(),
            r is Err <==> old(self).depth(Nesting::Pre) == 0,
            r is Err ==> r == Err::<(), RenderError>(unbalanced_error(Nesting::Pre)) && *final(self) == *old(self),
            r is Ok ==> final(self).depth(Nesting::Pre) + 1 == old(self).depth(Nesting::Pre),
            r is Ok ==> forall|j: Nesting| j != Nesting::Pre ==> #[trigger] final(self).depth(j) == old(self).depth(j),
            final(self).units() == old(self).units(),
            final(self).has_content() == old(self).has_content(),
            final(self).cells() == old(self).cells(),
    ;

    /// Add a block of text verbatim, followed by a line break.
    fn add_preformatted_block(&mut self, text: &str)
        requires
            old(self).inv(),
        ensures
            final(self).inv(),
            forall|j: Nesting| #[trigger] final(self).depth(j) == old(self).depth(j),
            final(self).units() >= old(self).units(),
            old(self).has_content() ==> final(self).has_content(),
            final(self).cells() == old(self).cells(),
            final(self).has_content(),
    ;

    /// Add inline text, wrapped at the renderer's width, to the current
    /// block.
    fn add_inline_text(&mut self, text: &str)
        requires
            old(self).inv(),
        ensures
            final(self).inv(),
            forall|j: Nesting| #[trigger] final(self).depth(j) == old(self).depth(j),
            final(self).units() >= old(self).units(),
            old(self).has_content() ==> final(self).has_content(),
            final(self).cells() == old(self).cells(),
            (exists|i: int| 0 <= i < text@.len() && !is_white_space(#[trigger] text@[i])) ==> final(self).has_content(),
    ;

    /// The width in character cells.
    fn width(&self) -> (r: usize)
        ensures
            r == self.cells(),
    ;

    /// Add a whole line verbatim, followed by a line break.
    fn add_block_line(&mut self, line: &str)
        requires
            old(self).inv(),
        ensures
            final(self).inv(),
            forall|j: Nesting| #[trigger] final(self).depth(j) == old(self).depth(j),
            final(self).units() >= old(self).units(),
            old(self).has_content() ==> final(self).has_content(),
            final(self).cells() == old(self).cells(),
            final(self).has_content(),
    ;

    /// Append the content of `other` as a new block, each of its lines
    /// preceded by the prefix at the same position; lines beyond the last
    /// prefix get none.
    fn append_subrender(&mut self, other: Self, prefixes: &[&str])
        requires
            old(self).inv(),
            other.inv(),
        ensures
            final(self).inv(),
            forall|j: Nesting| #[trigger] final(self).depth(j) == old(self).depth(j),
            final(self).units() >= old(self).units(),
            old(self).has_content() ==> final(self).has_content(),
            final(self).cells() == old(self).cells(),
            other.has_content() ==> final(self).has_content(),
    ;

    /// Append finished renderers side by side, joined by vertical borders
    /// and followed by a horizontal border. With `collapse`, the outer
    /// borders merge with the surrounding ones instead of being stacked.
    fn append_columns_with_borders(&mut self, cols: Vec<Self>, collapse: bool) -> (r: Result<(), RenderError>)
        requires
            old(self).inv(),
            forall|i: int| 0 <= i < cols@.len() ==> (#[trigger] cols@[i]).inv(),
        ensures
            final(self).inv(),
            forall|j: Nesting| #[trigger] final(self).depth(j) == old(self).depth(j),
            final(self).units() >= old(self).units(),
            old(self).has_content() ==> final(self).has_content(),
            final(self).cells() == old(self).cells(),
            r is Err ==> r == Err::<(), RenderError>(RenderError::ColumnWidthMismatch) && *final(self) == *old(self),
    ;

    /// Whether nothing has been emitted yet.
    fn empty(&self) -> (r: bool)
        ensures
            r == !self.has_content(),
    ;

    /// The number of text units emitted so far.
    fn text_len(&self) -> (r: usize)
        requires
            self.inv(),
        ensures
            r == self.units(),
    ;

    /// Open a hyperlink to `target`.
    fn start_link(&mut self, target: &str)
        requires
            old(self).inv(),
            old(self).depth(Nesting::Link) < usize::MAX,
        ensures
            final(self).inv(),
            final(self).depth(Nesting::Link) == old(self).depth(Nesting::Link) + 1,
            forall|j: Nesting| j != Nesting::Link ==> #[trigger] final(self).depth(j) == old(self).depth(j),
            final(self).units() == old(self).units(),
            final(self).has_content() == old(self).has_content(),
            final(self).cells() == old(self).cells(),
    ;

    /// Close the innermost open hyperlink.
    fn end_link(&mut self) -> (r: Result<(), RenderError>)
        requires
            old(self).inv(),
        ensures
            final(self).inv(),
            r is Err <==> old(self).depth(Nesting::Link) == 0,
            r is Err ==> r == Err::<(), RenderError>(unbalanced_error(Nesting::Link)) && *final(self) == *old(self),
            r is Ok ==> final(self).depth(Nesting::Link) + 1 == old(self).depth(Nesting::Link),
            r is Ok ==> forall|j: Nesting| j != Nesting::Link ==> #[trigger] final(self).depth(j) == old(self).depth(j),
            final(self).units() == old(self).units(),
            final(self).has_content() == old(self).has_content(),
            final(self).cells() == old(self).cells(),
    ;

    /// Open an emphasised span.
    fn start_emphasis(&mut self)
        requires
            old(self).inv(),
            old(self).depth(Nesting::Emphasis) < usize::MAX,
        ensures
            final(self).inv(),
            final(self).depth(Nesting::Emphasis) == old(self).depth(Nesting::Emphasis) + 1,
            forall|j: Nesting| j != Nesting::Emphasis ==> #[trigger] final(self).depth(j) == old(self).depth(j),
            final(self).units() == old(self).units(),
            final(self).has_content() == old(self).has_content(),
            final(self).cells() == old(self).cells(),
    ;

    /// Close the innermost emphasised span.
    fn end_emphasis(&mut self) -> (r: Result<(), RenderError>)
        requires
            old(self).inv(),
        ensures
            final(self).inv(),
            r is Err <==> old(self).depth(Nesting::Emphasis) == 0,
            r is Err ==> r == Err::<(), RenderError>(unbalanced_error(Nesting::Emphasis)) && *final(self) == *old(self),
            r is Ok ==> final(self).depth(Nesting::Emphasis) + 1 == old(self).depth(Nesting::Emphasis),
            r is Ok ==> forall|j: Nesting| j != Nesting::Emphasis ==> #[trigger] final(self).depth(j) == old(self).depth(j),
            final(self).units() == old(self).units(),
            final(self).has_content() == old(self).has_content(),
            final(self).cells() == old(self).cells(),
    ;

    /// Open a strong span.
    fn start_strong(&mut self)
        requires
            old(self).inv(),
            old(self).depth(Nesting::Strong) < usize::MAX,
        ensures
            final(self).inv(),
            final(self).depth(Nesting::Strong) == old(self).depth(Nesting::Strong) + 1,
            forall|j: Nesting| j != Nesting::Strong ==> #[trigger] final(self).depth(j) == old(self).depth(j),
            final(self).units() == old(self).units(),
            final(self).has_content() == old(self).has_content(),
            final(self).cells() == old(self).cells(),
    ;

    /// Close the innermost strong span.
    fn end_strong(&mut self) -> (r: Result<(), RenderError>)
        requires
            old(self).inv(),
        ensures
            final(self).inv(),
            r is Err <==> old(self).depth(Nesting::Strong) == 0,
            r is Err ==> r == Err::<(), RenderError>(unbalanced_error(Nesting::Strong)) && *final(self) == *old(self),
            r is Ok ==> final(self).depth(Nesting::Strong) + 1 == old(self).depth(Nesting::Strong),
            r is Ok ==> forall|j: Nesting| j != Nesting::Strong ==> #[trigger] final(self).depth(j) == old(self).depth(j),
            final(self).units() == old(self).units(),
            final(self).has_content() == old(self).has_content(),
            final(self).cells() == old(self).cells(),
    ;

    /// Open a code span.
    fn start_code(&mut self)
        requires
            old(self).inv(),
            old(self).depth(Nesting::Code) < usize::MAX,
        ensures
            final(self).inv(),
            final(self).depth(Nesting::Code) == old(self).depth(Nesting::Code) + 1,
            forall|j: Nesting| j != Nesting::Code ==> #[trigger] final(self).depth(j) == old(self).depth(j),
            final(self).units() == old(self).units(),
            final(self).has_content() == old(self).has_content(),
            final(self).cells() == old(self).cells(),
    ;

    /// Close the innermost code span.
    fn end_code(&mut self) -> (r: Result<(), RenderError>)
        requires
            old(self).inv(),
        ensures
            final(self).inv(),
            r is Err <==> old(self).depth(Nesting::Code) == 0,
            r is Err ==> r == Err::<(), RenderError>(unbalanced_error(Nesting::Code)) && *final(self) == *old(self),
            r is Ok ==> final(self).depth(Nesting::Code) + 1 == old(self).depth(Nesting::Code),
            r is Ok ==> forall|j: Nesting| j != Nesting::Code ==> #[trigger] final(self).depth(j) == old(self).depth(j),
            final(self).units() == old(self).units(),
            final(self).has_content() == old(self).has_content(),
            final(self).cells() == old(self).cells(),
    ;

    /// Add an image, shown by its title.
    fn add_image(&mut self, title: &str)
        requires
            old(self).inv(),
        ensures
            final(self).inv(),
            forall|j: Nesting| #[trigger] final(self).depth(j) == old(self).depth(j),
            final(self).units() >= old(self).units(),
            old(self).has_content() ==> final(self).has_content(),
            final(self).cells() == old(self).cells(),
            final(self).has_content(),
    ;

    /// Record the start of a named fragment at the current position.
    fn record_frag_start(&mut self, fragname: &str)
        requires
            old(self).inv(),
        ensures
            final(self).inv(),
            forall|j: Nesting| #[trigger] final(self).depth(j) == old(self).depth(j),
            final(self).units() >= old(self).units(),
            old(self).has_content() ==> final(self).has_content(),
            final(self).cells() == old(self).cells(),
            final(self).units() == old(self).units(),
            final(self).has_content() == old(self).has_content(),
    ;
}

} // verus!
