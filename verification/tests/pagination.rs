use pdfview::page::Viewport;
use pdfview::paginate::paginate;

fn lines(page: &pdfview::page::Page) -> Vec<String> {
    page.lines.clone()
}

const PLACEHOLDER: [&str; 8] = [
    "No text could be extracted from this document.",
    "",
    "This can happen with:",
    "- documents that are mostly images",
    "- documents with embedded or outlined text",
    "- documents with unusual encodings",
    "",
    "Try a document that contains selectable text.",
];

#[test]
fn empty_text_yields_single_placeholder_page() {
    let vp = Viewport::new(80, 24);
    let pages = paginate("", &vp);
    assert_eq!(pages.len(), 1);
    let got = lines(&pages[0]);
    assert_eq!(got.len(), PLACEHOLDER.len());
    for (g, e) in got.iter().zip(PLACEHOLDER.iter()) {
        assert_eq!(g, e);
    }
}

#[test]
fn placeholder_is_the_same_for_any_viewport() {
    let small = paginate("   \n\t", &Viewport::new(10, 9));
    let large = paginate("", &Viewport::new(200, 60));
    assert_eq!(small.len(), 1);
    assert_eq!(large.len(), 1);
    assert_eq!(lines(&small[0]), lines(&large[0]));
    assert_eq!(lines(&large[0])[0], PLACEHOLDER[0]);
}

#[test]
fn whitespace_only_text_is_blank() {
    let vp = Viewport::new(80, 24);
    let pages = paginate(" \n \u{c} \r\n", &vp);
    assert_eq!(pages.len(), 1);
    assert_eq!(lines(&pages[0])[0], PLACEHOLDER[0]);
}

#[test]
fn page_set_is_never_empty() {
    let vp = Viewport::new(80, 24);
    for text in ["", "x", "a\u{c}b", "\u{c}", "hello world", "a\u{c}"] {
        assert!(paginate(text, &vp).len() >= 1, "empty page set for {:?}", text);
    }
}

#[test]
fn section_break_makes_exactly_two_pages() {
    let vp = Viewport::new(80, 24);
    let pages = paginate("A\u{c}B", &vp);
    assert_eq!(pages.len(), 2);
    assert_eq!(lines(&pages[0]), vec!["A".to_string()]);
    assert_eq!(lines(&pages[1]), vec!["B".to_string()]);
}

#[test]
fn trailing_blank_section_adds_no_page() {
    let vp = Viewport::new(80, 24);
    let pages = paginate("A\u{c}", &vp);
    assert_eq!(pages.len(), 1);
    assert_eq!(lines(&pages[0]), vec!["A".to_string()]);
}

#[test]
fn forty_short_lines_make_three_pages_of_16_16_8() {
    let vp = Viewport::new(80, 24);
    let mut doc = String::new();
    for i in 1..=40 {
        if i > 1 {
            doc.push('\n');
        }
        doc.push_str(&format!("line {}", i));
    }
    let pages = paginate(&doc, &vp);
    assert_eq!(pages.len(), 3);
    assert_eq!(lines(&pages[0]).len(), 16);
    assert_eq!(lines(&pages[1]).len(), 16);
    assert_eq!(lines(&pages[2]).len(), 8);
    assert_eq!(lines(&pages[0])[0], "line 1");
    assert_eq!(lines(&pages[1])[0], "line 17");
    assert_eq!(lines(&pages[2])[7], "line 40");
}

#[test]
fn height_bound_holds_on_every_page() {
    let vp = Viewport::new(40, 20);
    let mut doc = String::new();
    for i in 0..100 {
        doc.push_str(&format!("word{} ", i));
    }
    let pages = paginate(&doc, &vp);
    for p in &pages {
        assert!(p.lines.len() <= 12);
    }
}

#[test]
fn width_bound_holds_on_every_line() {
    let vp = Viewport::new(40, 20);
    let mut doc = String::new();
    for i in 0..100 {
        doc.push_str(&format!("word{} ", i));
    }
    doc.push_str("averyverylongunbreakablewordthatmustbehardbroken");
    let pages = paginate(&doc, &vp);
    for p in &pages {
        for l in &p.lines {
            assert!(l.chars().count() <= 34, "line too wide: {:?}", l);
        }
    }
}

#[test]
fn words_wrap_at_word_boundaries() {
    // contentWidth 5: a greedy wrap puts "alpha" and "beta" on their own
    // lines; a raw hard-break of the unwrapped text would cut elsewhere.
    let vp = Viewport::new(11, 24);
    let pages = paginate("alpha beta", &vp);
    assert_eq!(pages.len(), 1);
    assert_eq!(lines(&pages[0]), vec!["alpha".to_string(), "beta".to_string()]);
}

#[test]
fn long_single_word_is_hard_broken_at_the_column_boundary() {
    let vp = Viewport::new(10, 24);
    let pages = paginate("abcdefghij", &vp);
    assert_eq!(pages.len(), 1);
    for l in &pages[0].lines {
        assert!(l.chars().count() <= 4);
    }
    let joined: String = pages[0].lines.concat();
    assert_eq!(joined, "abcdefghij");
}

#[test]
fn blank_lines_are_trimmed_at_page_edges_only() {
    let vp = Viewport::new(80, 24);
    let pages = paginate("first\n\nsecond", &vp);
    assert_eq!(pages.len(), 1);
    assert_eq!(
        lines(&pages[0]),
        vec!["first".to_string(), "".to_string(), "second".to_string()]
    );
}

#[test]
fn utility_formatting_helpers() {
    assert_eq!(pdfview::text::usize_to_string(0), "0");
    assert_eq!(pdfview::text::usize_to_string(42), "42");
    assert_eq!(pdfview::text::usize_to_string(1000), "1000");
    assert_eq!(pdfview::text::repeat_str("-", 4), "----");
    assert_eq!(pdfview::text::repeat_str("#", 0), "");
    assert_eq!(pdfview::text::pad_line(&"ab".to_string(), 5), "ab   ");
    assert_eq!(pdfview::text::pad_line(&"abcdef".to_string(), 3), "abcdef");
}
