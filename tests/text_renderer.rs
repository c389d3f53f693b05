use textrender::render::text_renderer::TextRenderer;
use textrender::render::{RenderError, Renderer};

fn renderer(width: usize) -> TextRenderer {
    TextRenderer::new(width).unwrap()
}

fn texts(r: TextRenderer) -> Vec<String> {
    r.into_lines().iter().map(|l| l.to_string()).collect()
}

#[test]
fn text_zero_width_is_refused() {
    assert!(matches!(TextRenderer::new(0), Err(RenderError::InvalidWidth)));
    assert_eq!(renderer(1).width(), 1);
}

#[test]
fn text_wraps_greedily() {
    let mut r = renderer(10);
    r.add_inline_text("the quick brown fox jumps");
    assert_eq!(texts(r), vec!["the quick", "brown fox", "jumps"]);
}

#[test]
fn text_word_filling_the_width_exactly() {
    let mut r = renderer(9);
    r.add_inline_text("the quick brown");
    assert_eq!(texts(r), vec!["the quick", "brown"]);
}

#[test]
fn text_splits_overlong_word() {
    let mut r = renderer(4);
    r.add_inline_text("ab abcdefghij");
    assert_eq!(texts(r), vec!["ab", "abcd", "efgh", "ij"]);
}

#[test]
fn text_collapses_and_trims_whitespace() {
    let mut r = renderer(20);
    r.add_inline_text("   a \t\n  b   ");
    assert_eq!(texts(r), vec!["a b"]);
}

#[test]
fn text_inline_pieces_join_into_one_word() {
    let mut r = renderer(20);
    r.add_inline_text("Hel");
    r.add_inline_text("lo world");
    r.add_inline_text(" again");
    assert_eq!(texts(r), vec!["Hello world again"]);
}

#[test]
fn text_lines_never_exceed_width() {
    for w in 1..12 {
        let mut r = renderer(w);
        r.add_inline_text("Lorem ipsum dolor sit amet, consectetur adipiscing elit, sed do eiusmodtempor");
        for l in r.into_lines() {
            assert!(l.text.len() <= w);
            assert!(!l.verbatim);
        }
    }
}

#[test]
fn text_rewrapping_is_idempotent() {
    let input = "one two three four five six seven eight nine ten eleven twelve";
    for w in 3..15 {
        let mut r = renderer(w);
        r.add_inline_text(input);
        let first = texts(r);
        let mut again = renderer(w);
        again.add_inline_text(&first.join("\n"));
        assert_eq!(texts(again), first);
    }
}

#[test]
fn text_pre_region_is_verbatim() {
    let mut r = renderer(3);
    r.add_inline_text("x");
    r.start_block();
    r.start_pre();
    r.add_inline_text("a  long\n  b");
    assert_eq!(r.end_pre(), Ok(()));
    r.new_line();
    let lines = r.into_lines();
    let shown: Vec<String> = lines.iter().map(|l| l.to_string()).collect();
    assert_eq!(shown, vec!["x", "a  long", "  b"]);
    assert!(lines[1].verbatim);
}

#[test]
fn text_preformatted_block_and_block_line() {
    let mut r = renderer(4);
    r.add_preformatted_block("wide  text");
    r.add_block_line("=====");
    assert_eq!(texts(r), vec!["wide  text", "====="]);
}

#[test]
fn text_new_line_versus_hard() {
    let mut r = renderer(10);
    r.add_inline_text("a");
    r.new_line();
    r.new_line();
    r.add_inline_text("b");
    r.new_line_hard();
    r.new_line_hard();
    r.add_empty_line();
    assert_eq!(texts(r), vec!["a", "b", "", ""]);
}

#[test]
fn text_blocks_start_on_new_lines() {
    let mut r = renderer(10);
    r.add_inline_text("a");
    r.start_block();
    r.add_inline_text("b");
    assert_eq!(r.end_block(), Ok(()));
    r.add_inline_text("c");
    assert_eq!(r.end_block(), Err(RenderError::UnbalancedBlock));
    assert_eq!(texts(r), vec!["a", "b", "c"]);
}

#[test]
fn text_unbalanced_scopes_are_refused() {
    let mut r = renderer(10);
    assert_eq!(r.end_link(), Err(RenderError::UnbalancedAnnotation));
    assert_eq!(r.end_emphasis(), Err(RenderError::UnbalancedAnnotation));
    assert_eq!(r.end_strong(), Err(RenderError::UnbalancedAnnotation));
    assert_eq!(r.end_code(), Err(RenderError::UnbalancedAnnotation));
    assert_eq!(r.end_pre(), Err(RenderError::UnbalancedPre));
    r.start_link("http://example.com");
    r.start_emphasis();
    r.add_inline_text("x");
    assert_eq!(r.end_link(), Ok(()));
    assert_eq!(r.end_emphasis(), Ok(()));
    assert_eq!(r.end_link(), Err(RenderError::UnbalancedAnnotation));
}

#[test]
fn text_empty_and_text_len() {
    let mut r = renderer(10);
    assert!(r.empty());
    assert_eq!(r.text_len(), 0);
    r.add_inline_text("   ");
    r.start_strong();
    r.record_frag_start("f");
    assert!(r.empty());
    let before = r.text_len();
    r.add_inline_text("ab");
    assert!(!r.empty());
    assert!(r.text_len() >= before);
    assert_eq!(r.text_len(), 5);
    assert_eq!(r.end_strong(), Ok(()));
    assert_eq!(r.text_len(), 5);
    let mut s = renderer(10);
    s.add_empty_line();
    assert!(!s.empty());
}

#[test]
fn text_subrender_with_prefixes() {
    let mut r = renderer(10);
    r.add_inline_text("top");
    let mut sub = r.new_sub_renderer(1);
    assert!(sub.empty());
    sub.add_inline_text("a b c");
    r.append_subrender(sub, &["> ", "> "]);
    assert_eq!(texts(r), vec!["top", "> a", "> b", "c"]);
}

fn column(width: usize, lines: usize) -> TextRenderer {
    let mut c = renderer(width);
    for i in 0..lines {
        c.add_block_line(&format!("{}", i));
    }
    c
}

#[test]
fn text_columns_pad_shorter_ones() {
    let mut r = renderer(11);
    let cols = vec![column(3, 2), column(3, 5), column(3, 3)];
    assert_eq!(r.append_columns_with_borders(cols, true), Ok(()));
    let lines = texts(r);
    assert_eq!(lines.len(), 5 + 1);
    assert_eq!(lines[0], "0  \u{2502}0  \u{2502}0  ");
    assert_eq!(lines[2], "   \u{2502}2  \u{2502}2  ");
    assert_eq!(lines[4], "   \u{2502}4  \u{2502}   ");
    assert_eq!(lines[5], "\u{2500}".repeat(11));
    for l in &lines {
        assert_eq!(l.chars().count(), 11);
    }
}

#[test]
fn text_columns_without_collapse_have_both_borders() {
    let mut r = renderer(11);
    let cols = vec![column(3, 2), column(3, 5), column(3, 3)];
    assert_eq!(r.append_columns_with_borders(cols, false), Ok(()));
    let lines = texts(r);
    assert_eq!(lines.len(), 1 + 5 + 1);
    assert_eq!(lines[0], "\u{2500}".repeat(11));
    assert_eq!(lines[6], "\u{2500}".repeat(11));
}

#[test]
fn text_collapse_merges_following_border() {
    let mut r = renderer(3);
    let mut a = r.new_sub_renderer(1);
    a.add_inline_text("A");
    let mut b = r.new_sub_renderer(1);
    b.add_inline_text("B");
    assert_eq!(r.append_columns_with_borders(vec![a, b], true), Ok(()));
    r.add_horizontal_border();
    assert_eq!(texts(r), vec!["A\u{2502}B", "\u{2500}\u{2500}\u{2500}"]);
}

#[test]
fn text_no_collapse_stacks_borders() {
    let mut r = renderer(3);
    let mut a = r.new_sub_renderer(1);
    a.add_inline_text("A");
    let mut b = r.new_sub_renderer(1);
    b.add_inline_text("B");
    assert_eq!(r.append_columns_with_borders(vec![a, b], false), Ok(()));
    r.add_horizontal_border();
    let border = "\u{2500}".repeat(3);
    assert_eq!(texts(r), vec![border.clone(), "A\u{2502}B".to_string(), border.clone(), border]);
}

#[test]
fn text_column_wider_than_declared_is_refused() {
    let mut r = renderer(10);
    r.add_inline_text("kept");
    let mut a = r.new_sub_renderer(2);
    a.add_block_line("toolong");
    assert_eq!(r.append_columns_with_borders(vec![a], true), Err(RenderError::ColumnWidthMismatch));
    let b = r.new_sub_renderer(6);
    let c = r.new_sub_renderer(4);
    assert_eq!(r.append_columns_with_borders(vec![b, c], true), Err(RenderError::ColumnWidthMismatch));
    assert_eq!(texts(r), vec!["kept"]);
}

#[test]
fn text_fragments_first_wins() {
    let mut r = renderer(10);
    r.record_frag_start("top");
    r.add_inline_text("a");
    r.new_line();
    r.add_inline_text("b");
    r.record_frag_start("mid");
    r.record_frag_start("top");
    assert_eq!(r.fragment_line("top"), Some(0));
    assert_eq!(r.fragment_line("mid"), Some(1));
    assert_eq!(r.fragment_line("none"), None);
}

#[test]
fn text_image_and_string_output() {
    let mut r = renderer(10);
    r.add_image("a picture");
    r.add_inline_text("end");
    assert_eq!(r.into_string(), "a picture\nend\n");
}

#[test]
fn text_block_refuses_to_close_over_open_pre() {
    let mut r = renderer(10);
    r.start_block();
    r.start_pre();
    assert_eq!(r.end_block(), Err(RenderError::UnbalancedPre));
    assert_eq!(r.end_pre(), Ok(()));
    assert_eq!(r.end_block(), Ok(()));
}

#[test]
fn text_block_refuses_to_close_over_open_span() {
    let mut r = renderer(10);
    r.start_block();
    r.start_code();
    assert_eq!(r.end_block(), Err(RenderError::UnbalancedAnnotation));
    assert_eq!(r.end_code(), Ok(()));
    r.start_link("outer");
    r.start_block();
    assert_eq!(r.end_block(), Ok(()));
    assert_eq!(r.end_block(), Err(RenderError::UnbalancedAnnotation));
    assert_eq!(r.end_link(), Ok(()));
    assert_eq!(r.end_block(), Ok(()));
}

#[test]
fn text_into_string_places_pending_word() {
    let mut r = renderer(10);
    r.add_inline_text("hello");
    assert_eq!(r.into_string(), "hello\n");
}

#[test]
fn text_columns_from_inline_text() {
    let mut r = renderer(7);
    let mut a = r.new_sub_renderer(3);
    a.add_inline_text("ab cd");
    let mut b = r.new_sub_renderer(3);
    b.add_inline_text("x");
    assert_eq!(r.append_columns_with_borders(vec![a, b], true), Ok(()));
    r.add_horizontal_border();
    assert_eq!(texts(r), vec!["ab \u{2502}x  ", "cd \u{2502}   ", "\u{2500}".repeat(7).as_str()]);
}

#[test]
fn text_image_with_pending_text_and_len() {
    let mut r = renderer(20);
    r.add_inline_text("see");
    r.add_image("logo");
    assert_eq!(r.text_len(), 7);
    assert_eq!(texts(r), vec!["seelogo"]);
}

#[test]
fn text_text_len_counts_utf8_bytes() {
    let mut r = renderer(10);
    r.add_inline_text("\u{e9}t\u{e9}");
    assert_eq!(r.text_len(), 5);
    r.add_block_line("\u{20ac}");
    assert_eq!(r.text_len(), 8);
}
