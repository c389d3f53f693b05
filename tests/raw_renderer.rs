use textrender::render::raw_renderer::RawRenderer;
use textrender::render::{RenderError, Renderer};

#[test]
fn raw_collapses_blank_line_between_words() {
    let mut r = RawRenderer::new();
    r.add_inline_text("Hello");
    r.add_empty_line();
    r.add_inline_text("world");
    r.add_empty_line();
    assert_eq!(r.into_string(), "Hello world ");
}

#[test]
fn raw_collapses_runs_inside_one_text() {
    let mut r = RawRenderer::new();
    r.add_inline_text("Hello   \n\nworld");
    r.new_line_hard();
    assert_eq!(r.into_string(), "Hello world ");
}

#[test]
fn raw_keeps_leading_space_as_one() {
    let mut r = RawRenderer::new();
    r.add_inline_text(" \t a\u{3000}\u{2003}b\r\n");
    assert_eq!(r.into_string(), " a b ");
}

#[test]
fn raw_new_is_empty() {
    let r = RawRenderer::new();
    assert!(r.empty());
    assert_eq!(r.text_len(), 0);
    assert_eq!(r.into_string(), "");
}

#[test]
fn raw_empty_until_content() {
    let mut r = RawRenderer::new();
    r.start_block();
    r.start_link("http://example.com");
    r.add_inline_text("");
    r.new_line();
    r.add_horizontal_border();
    r.record_frag_start("top");
    assert!(r.empty());
    r.add_inline_text("x");
    assert!(!r.empty());
    let mut s = RawRenderer::new();
    s.add_empty_line();
    assert!(!s.empty());
}

#[test]
fn raw_text_len_never_decreases() {
    let mut r = RawRenderer::new();
    let mut last = r.text_len();
    r.add_inline_text("abc");
    assert_eq!(r.text_len(), 3);
    assert!(r.text_len() >= last);
    last = r.text_len();
    r.start_emphasis();
    assert_eq!(r.end_emphasis(), Ok(()));
    assert!(r.text_len() >= last);
    last = r.text_len();
    r.add_block_line("line");
    assert_eq!(r.text_len(), 8);
    assert!(r.text_len() >= last);
    last = r.text_len();
    assert_eq!(r.end_code(), Err(RenderError::UnbalancedAnnotation));
    assert_eq!(r.text_len(), last);
}

#[test]
fn raw_unmatched_end_link_is_refused() {
    let mut r = RawRenderer::new();
    assert_eq!(r.end_link(), Err(RenderError::UnbalancedAnnotation));
    r.start_link("a");
    assert_eq!(r.end_link(), Ok(()));
    assert_eq!(r.end_link(), Err(RenderError::UnbalancedAnnotation));
}

#[test]
fn raw_unbalanced_scopes_are_refused() {
    let mut r = RawRenderer::new();
    assert_eq!(r.end_block(), Err(RenderError::UnbalancedBlock));
    assert_eq!(r.end_pre(), Err(RenderError::UnbalancedPre));
    assert_eq!(r.end_emphasis(), Err(RenderError::UnbalancedAnnotation));
    assert_eq!(r.end_strong(), Err(RenderError::UnbalancedAnnotation));
    assert_eq!(r.end_code(), Err(RenderError::UnbalancedAnnotation));
    r.start_block();
    r.start_pre();
    r.start_strong();
    r.start_code();
    assert_eq!(r.end_code(), Ok(()));
    assert_eq!(r.end_strong(), Ok(()));
    assert_eq!(r.end_pre(), Ok(()));
    assert_eq!(r.end_block(), Ok(()));
    assert_eq!(r.end_block(), Err(RenderError::UnbalancedBlock));
}

#[test]
fn raw_width_is_eighty() {
    let r = RawRenderer::new();
    assert_eq!(r.width(), 80);
    assert_eq!(r.new_sub_renderer(10).width(), 80);
}

#[test]
fn raw_blocks_end_with_separator() {
    let mut r = RawRenderer::new();
    r.add_preformatted_block("pre  text");
    r.add_image("logo");
    r.add_block_line("--");
    assert_eq!(r.text_len(), 9 + 1 + 4 + 1 + 2 + 1);
    assert_eq!(r.into_string(), "pre text logo -- ");
}

#[test]
fn raw_subrender_ignores_prefixes() {
    let mut r = RawRenderer::new();
    r.add_inline_text("a");
    let mut sub = r.new_sub_renderer(20);
    assert!(sub.empty());
    sub.add_inline_text("b c");
    r.append_subrender(sub, &["> ", "> "]);
    assert_eq!(r.into_string(), "ab c ");
}

#[test]
fn raw_columns_in_order() {
    let mut r = RawRenderer::new();
    let mut a = r.new_sub_renderer(5);
    a.add_inline_text("A");
    let mut b = r.new_sub_renderer(5);
    b.add_inline_text("B");
    assert_eq!(r.append_columns_with_borders(vec![a, b], true), Ok(()));
    r.add_horizontal_border();
    assert_eq!(r.text_len(), 4);
    assert_eq!(r.into_string(), "A B ");
}

#[test]
fn raw_block_refuses_to_close_over_open_span() {
    let mut r = RawRenderer::new();
    r.add_inline_text("x");
    r.start_block();
    r.start_link("u");
    assert_eq!(r.end_block(), Err(RenderError::UnbalancedAnnotation));
    assert_eq!(r.end_link(), Ok(()));
    r.start_pre();
    assert_eq!(r.end_block(), Err(RenderError::UnbalancedPre));
    assert_eq!(r.end_pre(), Ok(()));
    assert_eq!(r.end_block(), Ok(()));
    assert_eq!(r.text_len(), 1);
    assert_eq!(r.into_string(), "x");
}

#[test]
fn raw_span_opened_outside_block_may_stay_open() {
    let mut r = RawRenderer::new();
    r.start_emphasis();
    r.start_block();
    assert_eq!(r.end_block(), Ok(()));
    assert_eq!(r.end_emphasis(), Ok(()));
}

#[test]
fn raw_text_len_counts_utf8_bytes() {
    let mut r = RawRenderer::new();
    r.add_inline_text("\u{e9}");
    assert_eq!(r.text_len(), 2);
    r.add_image("\u{e9}");
    assert_eq!(r.text_len(), 5);
    r.add_block_line("\u{20ac}");
    assert_eq!(r.text_len(), 9);
    r.add_preformatted_block("\u{1f600}");
    assert_eq!(r.text_len(), 14);
    let s = r.into_string();
    assert!(s.len() <= 14);
    assert_eq!(s, "\u{e9}\u{e9} \u{20ac} \u{1f600} ");
}
