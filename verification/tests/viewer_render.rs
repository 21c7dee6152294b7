use pdfview::page::Viewport;
use pdfview::viewer::{Action, Key, Mode, PdfViewer};

fn forty_line_doc() -> String {
    let mut doc = String::new();
    for i in 1..=40 {
        if i > 1 {
            doc.push('\n');
        }
        doc.push_str(&format!("line {}", i));
    }
    doc
}

fn three_page_viewer() -> PdfViewer {
    PdfViewer::new("doc.pdf".to_string(), &forty_line_doc(), Viewport::new(80, 24))
}

#[test]
fn new_viewer_starts_on_first_page() {
    let v = three_page_viewer();
    assert_eq!(v.total_pages, 3);
    assert_eq!(v.current_page, 0);
    assert_eq!(v.total_pages, v.pages.len());
    assert!(matches!(v.mode, Mode::Reading));
    assert_eq!(v.char_count, forty_line_doc().chars().count());
}

#[test]
fn previous_on_first_page_is_a_no_op() {
    let mut v = three_page_viewer();
    v.prev_page();
    assert_eq!(v.current_page, 0);
}

#[test]
fn next_on_last_page_is_a_no_op() {
    let mut v = three_page_viewer();
    v.last_page();
    assert_eq!(v.current_page, 2);
    v.next_page();
    assert_eq!(v.current_page, 2);
}

#[test]
fn navigation_saturates_and_stays_in_bounds() {
    let mut v = three_page_viewer();
    v.next_page();
    assert_eq!(v.current_page, 1);
    v.next_page();
    v.next_page();
    v.next_page();
    assert_eq!(v.current_page, 2);
    v.prev_page();
    assert_eq!(v.current_page, 1);
    v.first_page();
    assert_eq!(v.current_page, 0);
    v.last_page();
    assert_eq!(v.current_page, 2);
    assert!(v.current_page < v.total_pages);
}

#[test]
fn keys_map_to_the_documented_transitions() {
    let mut v = three_page_viewer();
    assert!(matches!(v.apply_key(Key::Right), Action::Redraw));
    assert_eq!(v.current_page, 1);
    assert!(matches!(v.apply_key(Key::Letter('l')), Action::Redraw));
    assert_eq!(v.current_page, 2);
    assert!(matches!(v.apply_key(Key::Left), Action::Redraw));
    assert_eq!(v.current_page, 1);
    assert!(matches!(v.apply_key(Key::Letter('h')), Action::Redraw));
    assert_eq!(v.current_page, 0);
    assert!(matches!(v.apply_key(Key::End), Action::Redraw));
    assert_eq!(v.current_page, 2);
    assert!(matches!(v.apply_key(Key::Home), Action::Redraw));
    assert_eq!(v.current_page, 0);
    assert!(matches!(v.apply_key(Key::Letter('G')), Action::Redraw));
    assert_eq!(v.current_page, 2);
    assert!(matches!(v.apply_key(Key::Letter('g')), Action::Redraw));
    assert_eq!(v.current_page, 0);
    assert!(matches!(v.apply_key(Key::Letter('r')), Action::Redraw));
    assert_eq!(v.current_page, 0);
    assert!(matches!(v.apply_key(Key::Letter('x')), Action::Stay));
    assert!(matches!(v.apply_key(Key::Letter('q')), Action::Quit));
    assert!(matches!(v.apply_key(Key::Escape), Action::Quit));
}

#[test]
fn help_returns_to_the_page_shown_before() {
    let mut v = three_page_viewer();
    v.apply_key(Key::Right);
    assert_eq!(v.current_page, 1);
    assert!(matches!(v.apply_key(Key::Letter('?')), Action::ShowHelp));
    assert!(matches!(v.mode, Mode::Help));
    assert_eq!(v.current_page, 1);
    assert!(matches!(v.apply_key(Key::Letter('q')), Action::Redraw));
    assert!(matches!(v.mode, Mode::Reading));
    assert_eq!(v.current_page, 1);
}

#[test]
fn any_key_dismisses_help() {
    for k in [Key::Left, Key::Right, Key::Home, Key::End, Key::Escape, Key::Letter('z')] {
        let mut v = three_page_viewer();
        v.apply_key(Key::Letter('?'));
        assert!(matches!(v.apply_key(k), Action::Redraw));
        assert!(matches!(v.mode, Mode::Reading));
        assert_eq!(v.current_page, 0);
    }
}

#[test]
fn frame_layout_of_a_single_page_document() {
    let v = PdfViewer::new("doc".to_string(), "hello", Viewport::new(16, 12));
    let rows = v.render_frame();
    let expected = vec![
        "doc - Page 1/1".to_string(),
        "".to_string(),
        "+------------+".to_string(),
        "| hello      |".to_string(),
        "|            |".to_string(),
        "|            |".to_string(),
        "|            |".to_string(),
        "+------------+".to_string(),
        "".to_string(),
        "Controls: q/ESC quit | r refresh | ? help".to_string(),
    ];
    assert_eq!(rows, expected);
}

#[test]
fn frame_has_constant_height_and_progress_for_multiple_pages() {
    let mut v = three_page_viewer();
    let rows0 = v.render_frame();
    assert_eq!(rows0.len(), 6 + 16 + 1);
    assert_eq!(rows0[0], "doc.pdf - Page 1/3");
    assert_eq!(
        rows0[rows0.len() - 2],
        "Controls: <-/h previous | ->/l next | q/ESC quit | r refresh | ? help"
    );
    assert_eq!(
        rows0[rows0.len() - 1],
        format!("Progress: [{}{}] 33.3%", "#".repeat(6), ".".repeat(14))
    );
    v.last_page();
    let rows2 = v.render_frame();
    assert_eq!(rows2.len(), rows0.len());
    assert_eq!(rows2[0], "doc.pdf - Page 3/3");
    assert_eq!(
        rows2[rows2.len() - 1],
        format!("Progress: [{}] 100.0%", "#".repeat(20))
    );
}

#[test]
fn frame_width_is_constant_inside_the_box() {
    let v = three_page_viewer();
    let rows = v.render_frame();
    for row in &rows[2..2 + 18] {
        assert_eq!(row.chars().count(), 78);
    }
}

#[test]
fn help_overlay_lists_controls_and_document_facts() {
    let v = three_page_viewer();
    let rows = v.help_lines();
    let chars = forty_line_doc().chars().count();
    let expected = vec![
        "HELP - Document Viewer".to_string(),
        "".to_string(),
        "Controls:".to_string(),
        "  <- / h   : previous page".to_string(),
        "  -> / l   : next page".to_string(),
        "  Home / g : first page".to_string(),
        "  End / G  : last page".to_string(),
        "  r        : refresh".to_string(),
        "  ?        : show help".to_string(),
        "  q / ESC  : quit".to_string(),
        "".to_string(),
        "Document:".to_string(),
        "  File: doc.pdf".to_string(),
        "  Pages: 3".to_string(),
        format!("  Characters: {}", chars),
        "".to_string(),
        "Press any key to return...".to_string(),
    ];
    assert_eq!(rows, expected);
}

#[test]
fn empty_document_viewer_shows_the_placeholder() {
    let v = PdfViewer::new("empty.pdf".to_string(), "", Viewport::new(80, 24));
    assert_eq!(v.total_pages, 1);
    let rows = v.render_frame();
    assert_eq!(rows[0], "empty.pdf - Page 1/1");
    assert!(rows[3].starts_with("| No text could be extracted"));
}

#[test]
fn current_returns_the_page_the_reader_is_on() {
    let mut v = three_page_viewer();
    assert_eq!(v.current().lines[0], "line 1");
    v.next_page();
    assert_eq!(v.current().lines[0], "line 17");
    v.last_page();
    assert_eq!(v.current().lines[7], "line 40");
}
