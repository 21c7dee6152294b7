//! Frame layout: the header, the bordered content box of constant height,
//! the controls hint and the progress line, plus the help overlay.  Drawing
//! is left to the front end; this module only computes the rows.
use vstd::prelude::*;
use crate::text::{dec_str, repeat_char, pad_right, usize_to_string, repeat_str, pad_line};
use crate::viewer::PdfViewer;
use vstd::arithmetic::div_mod::{lemma_div_is_ordered, lemma_div_multiples_vanish};

verus! {

/// The header: the document name and the one-based page indicator.
pub open spec fn spec_header(name: Seq<char>, cur: nat, total: nat) -> Seq<char> {
    name + " - Page "@ + dec_str((cur + 1) as nat) + "/"@ + dec_str(total)
}

/// A horizontal border of the content box, two cells wider than the
/// content to cover the inner padding.
pub open spec fn spec_border(cw: nat) -> Seq<char> {
    "+"@ + repeat_char('-', (cw + 2) as nat) + "+"@
}

/// One row of the content box: the line padded to the content width
/// between the side borders.
pub open spec fn spec_content_row(l: Seq<char>, cw: nat) -> Seq<char> {
    "| "@ + pad_right(l, cw) + " |"@
}

/// The `ch` rows of the content box; rows beyond the page's lines are
/// blank, so the box height never varies.
pub open spec fn spec_rows(page: Seq<Seq<char>>, cw: nat, ch: nat) -> Seq<Seq<char>> {
    Seq::new(
        ch,
        |i: int|
            spec_content_row(
                if 0 <= i < page.len() {
                    page[i]
                } else {
                    Seq::<char>::empty()
                },
                cw,
            ),
    )
}

/// The controls hint; navigation is offered only when there is more than
/// one page.
pub open spec fn spec_controls(total: nat) -> Seq<char> {
    if total > 1 {
        "Controls: <-/h previous | ->/l next | q/ESC quit | r refresh | ? help"@
    } else {
        "Controls: q/ESC quit | r refresh | ? help"@
    }
}

/// Cells filled in the 20-cell progress bar, rounded down.
pub open spec fn spec_filled(cur: nat, total: nat) -> nat {
    ((cur + 1) * 20) / total
}

/// The percentage through the document, in tenths of a percent, rounded
/// down.
pub open spec fn spec_tenths(cur: nat, total: nat) -> nat {
    ((cur + 1) * 1000) / total
}

/// The progress line: the bar and the percentage with one decimal place.
pub open spec fn spec_progress(cur: nat, total: nat) -> Seq<char> {
    let filled = spec_filled(cur, total);
    let tenths = spec_tenths(cur, total);
    "Progress: ["@ + repeat_char('#', filled) + repeat_char('.', (20 - filled) as nat) + "] "@
        + dec_str(tenths / 10) + "."@ + dec_str(tenths % 10) + "%"@
}

/// The full frame, top to bottom: header, blank line, bordered content box
/// of exactly `ch` rows, blank line, controls hint, and — when more than
/// one page exists — the progress line.  Its row count depends only on the
/// viewport and the page total, never on the page's content.
pub open spec fn spec_frame(
    name: Seq<char>,
    page: Seq<Seq<char>>,
    cur: nat,
    total: nat,
    cw: nat,
    ch: nat,
) -> Seq<Seq<char>> {
    let head = seq![spec_header(name, cur, total), Seq::<char>::empty(), spec_border(cw)];
    let foot = seq![spec_border(cw), Seq::<char>::empty(), spec_controls(total)];
    let base = head + spec_rows(page, cw, ch) + foot;
    if total > 1 {
        base.push(spec_progress(cur, total))
    } else {
        base
    }
}

/// The help overlay: the controls and the document's name, page count and
/// character count.
pub open spec fn spec_help(name: Seq<char>, total: nat, chars: nat) -> Seq<Seq<char>> {
    seq![
        "HELP - Document Viewer"@,
        Seq::<char>::empty(),
        "Controls:"@,
        "  <- / h   : previous page"@,
        "  -> / l   : next page"@,
        "  Home / g : first page"@,
        "  End / G  : last page"@,
        "  r        : refresh"@,
        "  ?        : show help"@,
        "  q / ESC  : quit"@,
        Seq::<char>::empty(),
        "Document:"@,
        "  File: "@ + name,
        "  Pages: "@ + dec_str(total),
        "  Characters: "@ + dec_str(chars),
        Seq::<char>::empty(),
        "Press any key to return..."@,
    ]
}

impl PdfViewer {
    /// Lays out the frame for the page the reader is on.  The frame always
    /// occupies the same number of rows for a given viewport and page
    /// total, so the display never jitters between pages.
    pub fn render_frame(&self) -> (rows: Vec<String>)
        requires
            self.wf(),
        ensures
            rows.deep_view() == spec_frame(
                self.pdf_name@,
                self.pages.deep_view()[self.current_page as int],
                self.current_page as nat,
                self.total_pages as nat,
                self.viewport.spec_content_width(),
                self.viewport.spec_content_height(),
            ),
            rows@.len() == 6 + self.viewport.spec_content_height() + (if self.total_pages > 1 {
                1int
            } else {
                0int
            }),
    {
        proof {
            reveal_strlit("-");
            reveal_strlit("#");
            reveal_strlit(".");
        }
        let cw = self.viewport.content_width();
        let ch = self.viewport.content_height();
        let ghost pv = self.pages.deep_view()[self.current_page as int];
        let ghost hd = seq![
            spec_header(self.pdf_name@, self.current_page as nat, self.total_pages as nat),
            Seq::<char>::empty(),
            spec_border(cw as nat),
        ];
        let mut rows: Vec<String> = Vec::new();
        let mut header = self.pdf_name.clone();
        header.append(" - Page ");
        let ns = usize_to_string(self.current_page + 1);
        header.append(ns.as_str());
        header.append("/");
        let ts = usize_to_string(self.total_pages);
        header.append(ts.as_str());
        rows.push(header);
        rows.push(String::new());
        let mut top = String::new();
        top.append("+");
        let dash = repeat_str("-", cw + 2);
        top.append(dash.as_str());
        top.append("+");
        let bottom = top.clone();
        rows.push(top);
        proof {
            assert(rows.deep_view() =~~= hd + spec_rows(pv, cw as nat, 0));
        }
        let page = &self.pages[self.current_page];
        let mut i: usize = 0;
        while i < ch
            invariant
                i <= ch,
                cw == self.viewport.spec_content_width(),
                page@ == pv,
                hd.len() == 3,
                rows.deep_view() == hd + spec_rows(pv, cw as nat, i as nat),
            decreases ch - i,
        {
            proof {
                reveal_strlit("-");
            }
            let line: String = if i < page.line_count() {
                page.line(i).clone()
            } else {
                String::new()
            };
            proof {
                if i < page@.len() {
                    assert(line@ == pv[i as int]);
                }
            }
            let padded = pad_line(&line, cw);
            let mut row = String::new();
            row.append("| ");
            row.append(padded.as_str());
            row.append(" |");
            let ghost rv = rows.deep_view();
            proof {
                assert(row@ == spec_content_row(
                    if i < pv.len() {
                        pv[i as int]
                    } else {
                        Seq::<char>::empty()
                    },
                    cw as nat,
                ));
            }
            rows.push(row);
            i += 1;
            proof {
                assert(rv.len() == 3 + i - 1);
                assert(rows@.len() == 3 + i);
                assert forall|j: int|
                    0 <= j < rows@.len() implies rows.deep_view()[j] == (hd + spec_rows(
                    pv,
                    cw as nat,
                    i as nat,
                ))[j] by {
                    if j < rv.len() {
                        assert(rows.deep_view()[j] == rv[j]);
                        assert(rv[j] == (hd + spec_rows(pv, cw as nat, (i - 1) as nat))[j]);
                    }
                }
                assert(rows.deep_view() =~~= hd + spec_rows(pv, cw as nat, i as nat));
            }
        }
        rows.push(bottom);
        rows.push(String::new());
        let controls = if self.total_pages > 1 {
            "Controls: <-/h previous | ->/l next | q/ESC quit | r refresh | ? help"
        } else {
            "Controls: q/ESC quit | r refresh | ? help"
        };
        let mut cl = String::new();
        cl.append(controls);
        rows.push(cl);
        let ghost base = hd + spec_rows(pv, cw as nat, ch as nat) + seq![
            spec_border(cw as nat),
            Seq::<char>::empty(),
            spec_controls(self.total_pages as nat),
        ];
        proof {
            assert(rows.deep_view() =~~= base);
        }
        if self.total_pages > 1 {
            let cur128 = self.current_page as u128;
            let total128 = self.total_pages as u128;
            let filled128 = (cur128 + 1) * 20 / total128;
            let tenths128 = (cur128 + 1) * 1000 / total128;
            proof {
                assert((cur128 + 1) * 20 <= total128 * 20) by (nonlinear_arith)
                    requires
                        cur128 < total128,
                ;
                lemma_div_is_ordered(((cur128 + 1) * 20) as int, (total128 * 20) as int, total128 as int);
                lemma_div_multiples_vanish(20, total128 as int);
                assert(filled128 <= 20);
                assert((cur128 + 1) * 1000 <= total128 * 1000) by (nonlinear_arith)
                    requires
                        cur128 < total128,
                ;
                lemma_div_is_ordered(
                    ((cur128 + 1) * 1000) as int,
                    (total128 * 1000) as int,
                    total128 as int,
                );
                lemma_div_multiples_vanish(1000, total128 as int);
                assert(tenths128 <= 1000);
                assert(filled128 as nat == spec_filled(
                    self.current_page as nat,
                    self.total_pages as nat,
                ));
                assert(tenths128 as nat == spec_tenths(
                    self.current_page as nat,
                    self.total_pages as nat,
                ));
            }
            let filled = filled128 as usize;
            let tenths = tenths128 as usize;
            let mut pl = String::new();
            pl.append("Progress: [");
            let bar = repeat_str("#", filled);
            pl.append(bar.as_str());
            let rest = repeat_str(".", 20 - filled);
            pl.append(rest.as_str());
            pl.append("] ");
            let whole = usize_to_string(tenths / 10);
            pl.append(whole.as_str());
            pl.append(".");
            let frac = usize_to_string(tenths % 10);
            pl.append(frac.as_str());
            pl.append("%");
            proof {
                assert(pl@ == spec_progress(self.current_page as nat, self.total_pages as nat));
            }
            rows.push(pl);
            proof {
                assert(rows.deep_view() =~~= base.push(
                    spec_progress(self.current_page as nat, self.total_pages as nat),
                ));
            }
        }
        rows
    }

    /// Lays out the help overlay for this document.
    pub fn help_lines(&self) -> (rows: Vec<String>)
        ensures
            rows.deep_view() == spec_help(
                self.pdf_name@,
                self.total_pages as nat,
                self.char_count as nat,
            ),
    {
        let mut rows: Vec<String> = Vec::new();
        rows.push("HELP - Document Viewer".to_owned());
        rows.push(String::new());
        rows.push("Controls:".to_owned());
        rows.push("  <- / h   : previous page".to_owned());
        rows.push("  -> / l   : next page".to_owned());
        rows.push("  Home / g : first page".to_owned());
        rows.push("  End / G  : last page".to_owned());
        rows.push("  r        : refresh".to_owned());
        rows.push("  ?        : show help".to_owned());
        rows.push("  q / ESC  : quit".to_owned());
        rows.push(String::new());
        rows.push("Document:".to_owned());
        let mut file = String::new();
        file.append("  File: ");
        file.append(self.pdf_name.as_str());
        rows.push(file);
        let mut pages_line = String::new();
        pages_line.append("  Pages: ");
        let ts = usize_to_string(self.total_pages);
        pages_line.append(ts.as_str());
        rows.push(pages_line);
        let mut chars_line = String::new();
        chars_line.append("  Characters: ");
        let cs = usize_to_string(self.char_count);
        chars_line.append(cs.as_str());
        rows.push(chars_line);
        rows.push(String::new());
        rows.push("Press any key to return...".to_owned());
        proof {
            assert(rows.deep_view() =~~= spec_help(
                self.pdf_name@,
                self.total_pages as nat,
                self.char_count as nat,
            ));
        }
        rows
    }
}

} // verus!
