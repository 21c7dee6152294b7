//! The viewport sampled at session start and the pages cut from the text.
use vstd::prelude::*;

verus! {

/// The terminal's character grid at session start.  Six columns are
/// reserved for the content box's borders and padding, eight rows for the
/// header, borders, controls and progress lines; both budgets floor at 0.
#[derive(Clone, Copy, PartialEq, Eq, Structural)]
pub struct Viewport {
    pub width: u16,
    pub height: u16,
}

impl Viewport {
    /// Columns available to page content.
    pub open spec fn spec_content_width(&self) -> nat {
        if self.width >= 6 {
            (self.width - 6) as nat
        } else {
            0
        }
    }

    /// Rows available to page content.
    pub open spec fn spec_content_height(&self) -> nat {
        if self.height >= 8 {
            (self.height - 8) as nat
        } else {
            0
        }
    }

    pub fn new(width: u16, height: u16) -> (v: Viewport)
        ensures
            v.width == width,
            v.height == height,
    {
        Viewport { width, height }
    }

    pub fn content_width(&self) -> (w: usize)
        ensures
            w == self.spec_content_width(),
    {
        if self.width >= 6 {
            (self.width - 6) as usize
        } else {
            0
        }
    }

    pub fn content_height(&self) -> (h: usize)
        ensures
            h == self.spec_content_height(),
    {
        if self.height >= 8 {
            (self.height - 8) as usize
        } else {
            0
        }
    }
}

/// One page of the reflowed document: an ordered sequence of display lines,
/// immutable once produced.
pub struct Page {
    pub lines: Vec<String>,
}

impl View for Page {
    type V = Seq<Seq<char>>;

    open spec fn view(&self) -> Seq<Seq<char>> {
        self.lines.deep_view()
    }
}

impl DeepView for Page {
    type V = Seq<Seq<char>>;

    open spec fn deep_view(&self) -> Seq<Seq<char>> {
        self.view()
    }
}

impl Page {
    pub fn new(lines: Vec<String>) -> (p: Page)
        ensures
            p@ == lines.deep_view(),
    {
        Page { lines }
    }

    pub fn line_count(&self) -> (n: usize)
        ensures
            n == self@.len(),
    {
        self.lines.len()
    }

    /// The line at `i`.
    pub fn line(&self, i: usize) -> (l: &String)
        requires
            i < self@.len(),
        ensures
            l@ == self@[i as int],
    {
        &self.lines[i]
    }
}

} // verus!
