//! The interactive reader state: the page set, the page the reader is on,
//! and the pure transition that each decoded key press performs.
use vstd::prelude::*;
use crate::page::{Page, Viewport};
use crate::paginate::{paginate, spec_paginate};

verus! {

/// A key press, already decoded from the terminal backend.  Only press
/// events reach the library; repeats and releases are dropped by the
/// front end.
#[derive(Clone, Copy, PartialEq, Eq, Structural)]
pub enum Key {
    Left,
    Right,
    Home,
    End,
    Escape,
    Letter(char),
}

/// What the front end must do after a key is applied.
#[derive(Clone, Copy, PartialEq, Eq, Structural)]
pub enum Action {
    Stay,
    Redraw,
    ShowHelp,
    Quit,
}

/// Whether the reader is looking at a page or at the help overlay.
#[derive(Clone, Copy, PartialEq, Eq, Structural)]
pub enum Mode {
    Reading,
    Help,
}

/// The pure transition of the reader: from the mode and page index, one
/// key yields the next mode, the next index and the action to perform.
/// Every index step saturates at the ends of the page range, and any key
/// dismisses the help overlay without moving the reader.
pub open spec fn spec_apply(mode: Mode, cur: int, total: int, key: Key) -> (Mode, int, Action) {
    if mode == Mode::Help {
        (Mode::Reading, cur, Action::Redraw)
    } else {
        let prev = (Mode::Reading, if cur > 0 { cur - 1 } else { 0 }, Action::Redraw);
        let next = (Mode::Reading, if cur + 1 < total { cur + 1 } else { cur }, Action::Redraw);
        let first = (Mode::Reading, 0, Action::Redraw);
        let last = (Mode::Reading, total - 1, Action::Redraw);
        let quit = (Mode::Reading, cur, Action::Quit);
        match key {
            Key::Left => prev,
            Key::Right => next,
            Key::Home => first,
            Key::End => last,
            Key::Escape => quit,
            Key::Letter(c) => if c == 'h' {
                prev
            } else if c == 'l' {
                next
            } else if c == 'g' {
                first
            } else if c == 'G' {
                last
            } else if c == 'q' {
                quit
            } else if c == 'r' {
                (Mode::Reading, cur, Action::Redraw)
            } else if c == '?' {
                (Mode::Help, cur, Action::ShowHelp)
            } else {
                (Mode::Reading, cur, Action::Stay)
            },
        }
    }
}

/// Help round trip: opening the help overlay and dismissing it with any
/// key returns the reader to the exact page index shown before, back in
/// reading mode.
pub proof fn lemma_help_round_trip(cur: int, total: int, k: Key)
    ensures
        ({
            let s1 = spec_apply(Mode::Reading, cur, total, Key::Letter('?'));
            let s2 = spec_apply(s1.0, s1.1, total, k);
            s2.0 == Mode::Reading && s2.1 == cur
        }),
{
}

/// The loaded document and the reader's position in it.
pub struct PdfViewer {
    pub pages: Vec<Page>,
    pub current_page: usize,
    pub total_pages: usize,
    pub mode: Mode,
    pub pdf_name: String,
    pub char_count: usize,
    pub viewport: Viewport,
}

impl PdfViewer {
    /// The state invariant: the count matches the page set, which is never
    /// empty, and the index always points at a page.
    pub open spec fn wf(&self) -> bool {
        &&& self.total_pages == self.pages@.len()
        &&& self.total_pages >= 1
        &&& self.current_page < self.total_pages
    }

    /// Loads a document: the text is paginated once for the viewport and
    /// the reader starts on the first page, in reading mode.
    pub fn new(pdf_name: String, text: &str, viewport: Viewport) -> (v: PdfViewer)
        ensures
            v.wf(),
            v.pages.deep_view() == spec_paginate(
                text@,
                viewport.spec_content_width(),
                viewport.spec_content_height(),
            ),
            v.current_page == 0,
            v.total_pages == v.pages@.len(),
            v.mode == Mode::Reading,
            v.pdf_name@ == pdf_name@,
            v.char_count == text@.len(),
            v.viewport == viewport,
    {
        let pages = paginate(text, &viewport);
        let total_pages = pages.len();
        let char_count = text.unicode_len();
        PdfViewer {
            pages,
            current_page: 0,
            total_pages,
            mode: Mode::Reading,
            pdf_name,
            char_count,
            viewport,
        }
    }

    /// Saturating forward step: the last page is a fixed point.
    pub fn next_page(&mut self)
        requires
            old(self).wf(),
        ensures
            final(self).wf(),
            final(self).current_page == if old(self).current_page + 1 < old(self).total_pages {
                old(self).current_page + 1
            } else {
                old(self).current_page as int
            },
            final(self).pages == old(self).pages,
            final(self).total_pages == old(self).total_pages,
            final(self).mode == old(self).mode,
            final(self).pdf_name == old(self).pdf_name,
            final(self).char_count == old(self).char_count,
            final(self).viewport == old(self).viewport,
    {
        if self.current_page + 1 < self.total_pages {
            self.current_page = self.current_page + 1;
        }
    }

    /// Saturating backward step: the first page is a fixed point.
    pub fn prev_page(&mut self)
        requires
            old(self).wf(),
        ensures
            final(self).wf(),
            final(self).current_page == if old(self).current_page > 0 {
                old(self).current_page - 1
            } else {
                0
            },
            final(self).pages == old(self).pages,
            final(self).total_pages == old(self).total_pages,
            final(self).mode == old(self).mode,
            final(self).pdf_name == old(self).pdf_name,
            final(self).char_count == old(self).char_count,
            final(self).viewport == old(self).viewport,
    {
        if self.current_page > 0 {
            self.current_page = self.current_page - 1;
        }
    }

    /// Jump to the first page.
    pub fn first_page(&mut self)
        requires
            old(self).wf(),
        ensures
            final(self).wf(),
            final(self).current_page == 0,
            final(self).pages == old(self).pages,
            final(self).total_pages == old(self).total_pages,
            final(self).mode == old(self).mode,
            final(self).pdf_name == old(self).pdf_name,
            final(self).char_count == old(self).char_count,
            final(self).viewport == old(self).viewport,
    {
        self.current_page = 0;
    }

    /// Jump to the last page.
    pub fn last_page(&mut self)
        requires
            old(self).wf(),
        ensures
            final(self).wf(),
            final(self).current_page == old(self).total_pages - 1,
            final(self).pages == old(self).pages,
            final(self).total_pages == old(self).total_pages,
            final(self).mode == old(self).mode,
            final(self).pdf_name == old(self).pdf_name,
            final(self).char_count == old(self).char_count,
            final(self).viewport == old(self).viewport,
    {
        self.current_page = self.total_pages - 1;
    }

    /// Applies one decoded key press, exactly as `spec_apply` states, and
    /// returns the action the front end must perform.
    pub fn apply_key(&mut self, key: Key) -> (a: Action)
        requires
            old(self).wf(),
        ensures
            final(self).wf(),
            final(self).pages == old(self).pages,
            final(self).total_pages == old(self).total_pages,
            final(self).pdf_name == old(self).pdf_name,
            final(self).char_count == old(self).char_count,
            final(self).viewport == old(self).viewport,
            ({
                let r = spec_apply(
                    old(self).mode,
                    old(self).current_page as int,
                    old(self).total_pages as int,
                    key,
                );
                &&& final(self).mode == r.0
                &&& final(self).current_page as int == r.1
                &&& a == r.2
            }),
    {
        match self.mode {
            Mode::Help => {
                self.mode = Mode::Reading;
                Action::Redraw
            },
            Mode::Reading => {
                match key {
                    Key::Left => {
                        self.prev_page();
                        Action::Redraw
                    },
                    Key::Right => {
                        self.next_page();
                        Action::Redraw
                    },
                    Key::Home => {
                        self.first_page();
                        Action::Redraw
                    },
                    Key::End => {
                        self.last_page();
                        Action::Redraw
                    },
                    Key::Escape => Action::Quit,
                    Key::Letter(c) => {
                        if c == 'h' {
                            self.prev_page();
                            Action::Redraw
                        } else if c == 'l' {
                            self.next_page();
                            Action::Redraw
                        } else if c == 'g' {
                            self.first_page();
                            Action::Redraw
                        } else if c == 'G' {
                            self.last_page();
                            Action::Redraw
                        } else if c == 'q' {
                            Action::Quit
                        } else if c == 'r' {
                            Action::Redraw
                        } else if c == '?' {
                            self.mode = Mode::Help;
                            Action::ShowHelp
                        } else {
                            Action::Stay
                        }
                    },
                }
            },
        }
    }

    /// The page the reader is on.
    pub fn current(&self) -> (p: &Page)
        requires
            self.wf(),
        ensures
            p@ == self.pages.deep_view()[self.current_page as int],
    {
        &self.pages[self.current_page]
    }
}

} // verus!
