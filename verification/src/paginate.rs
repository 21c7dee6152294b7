//! The pagination engine: the text is split on the form-feed page-break
//! marker into sections, each section is wrapped to the content width, and
//! the wrapped lines are cut into pages of at most the content height.
use vstd::prelude::*;
use crate::page::{Page, Viewport};
use crate::text::{is_space, line_blank, chars_blank, str_chars, chars_to_string};
use crate::wrap::{section_lines, wrap_section, lemma_break_lines_width};

verus! {

/// The form-feed character that marks a page break in the source text.
pub open spec fn page_break() -> char {
    '\u{c}'
}

/// A page buffer has content when some line on it is not blank.
pub open spec fn has_content(buf: Seq<Seq<char>>) -> bool {
    exists|i: int| 0 <= i < buf.len() && !line_blank(#[trigger] buf[i])
}

fn line_is_blank(l: &String) -> (r: bool)
    ensures
        r == line_blank(l@),
{
    let v = str_chars(l.as_str());
    chars_blank(&v)
}

fn lines_have_content(v: &Vec<String>) -> (r: bool)
    ensures
        r == has_content(v.deep_view()),
{
    let mut i: usize = 0;
    while i < v.len()
        invariant
            i <= v.len(),
            forall|j: int| 0 <= j < i ==> line_blank(#[trigger] v.deep_view()[j]),
        decreases v.len() - i,
    {
        if !line_is_blank(&v[i]) {
            proof {
                assert(!line_blank(v.deep_view()[i as int]));
            }
            return true;
        }
        i += 1;
    }
    false
}

/// The buffer with its leading blank lines removed.
pub open spec fn drop_leading_blank(p: Seq<Seq<char>>) -> Seq<Seq<char>>
    decreases p.len(),
{
    if p.len() == 0 {
        p
    } else if line_blank(p[0]) {
        drop_leading_blank(p.drop_first())
    } else {
        p
    }
}

/// The buffer with its trailing blank lines removed.
pub open spec fn drop_trailing_blank(p: Seq<Seq<char>>) -> Seq<Seq<char>>
    decreases p.len(),
{
    if p.len() == 0 {
        p
    } else if line_blank(p.last()) {
        drop_trailing_blank(p.drop_last())
    } else {
        p
    }
}

/// A page is closed with its leading and trailing blank lines removed;
/// internal blank lines stay.
pub open spec fn trim_page(p: Seq<Seq<char>>) -> Seq<Seq<char>> {
    drop_trailing_blank(drop_leading_blank(p))
}

proof fn lemma_drop_leading_len(p: Seq<Seq<char>>)
    ensures
        drop_leading_blank(p).len() <= p.len(),
    decreases p.len(),
{
    if p.len() > 0 && line_blank(p[0]) {
        lemma_drop_leading_len(p.drop_first());
    }
}

proof fn lemma_drop_trailing_len(p: Seq<Seq<char>>)
    ensures
        drop_trailing_blank(p).len() <= p.len(),
    decreases p.len(),
{
    if p.len() > 0 && line_blank(p.last()) {
        lemma_drop_trailing_len(p.drop_last());
    }
}

/// Trimming never lengthens a page.
pub proof fn lemma_trim_len(p: Seq<Seq<char>>)
    ensures
        trim_page(p).len() <= p.len(),
{
    lemma_drop_leading_len(p);
    lemma_drop_trailing_len(drop_leading_blank(p));
}

/// Every line within a width budget.
pub open spec fn lines_within(ls: Seq<Seq<char>>, w: nat) -> bool {
    forall|i: int| 0 <= i < ls.len() ==> (#[trigger] ls[i]).len() <= w
}

proof fn lemma_drop_leading_within(p: Seq<Seq<char>>, w: nat)
    requires
        lines_within(p, w),
    ensures
        lines_within(drop_leading_blank(p), w),
    decreases p.len(),
{
    if p.len() > 0 && line_blank(p[0]) {
        assert forall|i: int| 0 <= i < p.drop_first().len() implies (#[trigger] p.drop_first()[i]).len()
            <= w by {
            assert(p.drop_first()[i] == p[i + 1]);
        }
        lemma_drop_leading_within(p.drop_first(), w);
    }
}

proof fn lemma_drop_trailing_within(p: Seq<Seq<char>>, w: nat)
    requires
        lines_within(p, w),
    ensures
        lines_within(drop_trailing_blank(p), w),
    decreases p.len(),
{
    if p.len() > 0 && line_blank(p.last()) {
        assert forall|i: int| 0 <= i < p.drop_last().len() implies (#[trigger] p.drop_last()[i]).len()
            <= w by {
            assert(p.drop_last()[i] == p[i]);
        }
        lemma_drop_trailing_within(p.drop_last(), w);
    }
}

/// Trimming keeps every remaining line within the page's width budget.
pub proof fn lemma_trim_within(p: Seq<Seq<char>>, w: nat)
    requires
        lines_within(p, w),
    ensures
        lines_within(trim_page(p), w),
{
    lemma_drop_leading_within(p, w);
    lemma_drop_trailing_within(drop_leading_blank(p), w);
}

/// Removes the leading and trailing blank lines of a closed page buffer.
fn trim_lines(buf: &Vec<String>) -> (r: Vec<String>)
    ensures
        r.deep_view() == trim_page(buf.deep_view()),
{
    let ghost bv = buf.deep_view();
    let mut lo: usize = 0;
    proof {
        assert(bv.skip(0) =~= bv);
    }
    while lo < buf.len() && line_is_blank(&buf[lo])
        invariant
            lo <= buf.len(),
            bv == buf.deep_view(),
            drop_leading_blank(bv.skip(lo as int)) == drop_leading_blank(bv),
        decreases buf.len() - lo,
    {
        proof {
            assert(bv.skip(lo as int)[0] == bv[lo as int]);
            assert(bv.skip(lo as int).drop_first() =~= bv.skip(lo as int + 1));
        }
        lo += 1;
    }
    let ghost g = bv.skip(lo as int);
    proof {
        if lo == buf.len() {
            assert(g =~= Seq::<Seq<char>>::empty());
        } else {
            assert(g[0] == bv[lo as int]);
        }
        assert(drop_leading_blank(bv) == g);
    }
    let mut hi: usize = buf.len() - lo;
    proof {
        assert(g.take(hi as int) =~= g);
    }
    while hi > 0 && line_is_blank(&buf[lo + hi - 1])
        invariant
            hi <= g.len(),
            lo + g.len() == buf.len(),
            g == bv.skip(lo as int),
            bv == buf.deep_view(),
            drop_trailing_blank(g.take(hi as int)) == drop_trailing_blank(g),
        decreases hi,
    {
        proof {
            assert(g.take(hi as int).last() == bv[lo + hi - 1]);
            assert(g.take(hi as int).drop_last() =~= g.take(hi as int - 1));
        }
        hi -= 1;
    }
    proof {
        if hi == 0 {
            assert(g.take(0) =~= Seq::<Seq<char>>::empty());
        } else {
            assert(g.take(hi as int).last() == bv[lo + hi - 1]);
        }
        assert(trim_page(bv) == g.take(hi as int));
    }
    let mut r: Vec<String> = Vec::new();
    let mut k: usize = 0;
    while k < hi
        invariant
            k <= hi,
            hi <= g.len(),
            lo + g.len() == buf.len(),
            g == bv.skip(lo as int),
            bv == buf.deep_view(),
            r.deep_view() =~= bv.subrange(lo as int, lo as int + k),
        decreases hi - k,
    {
        let ghost prev = r.deep_view();
        let x = buf[lo + k].clone();
        proof {
            assert(x@ == bv[lo + k]);
        }
        r.push(x);
        k += 1;
        proof {
            assert(prev.len() == k - 1);
            assert(r@.len() == k);
            assert forall|j: int| 0 <= j < k implies r.deep_view()[j] == bv[lo + j] by {
                if j < k - 1 {
                    assert(r.deep_view()[j] == prev[j]);
                    assert(prev[j] == bv.subrange(lo as int, lo as int + k - 1)[j]);
                } else {
                    assert(r.deep_view()[j] == x@);
                }
            }
            assert(r.deep_view() =~~= bv.subrange(lo as int, lo as int + k));
        }
    }
    proof {
        assert(bv.subrange(lo as int, lo as int + hi) =~= g.take(hi as int));
    }
    r
}

/// The text split on the page-break marker, built left to right: `cur` is
/// the section being read, `acc` the sections already closed.
pub open spec fn split_acc(t: Seq<char>, cur: Seq<char>, acc: Seq<Seq<char>>) -> Seq<Seq<char>>
    decreases t.len(),
{
    if t.len() == 0 {
        acc.push(cur)
    } else if t[0] == page_break() {
        split_acc(t.drop_first(), Seq::empty(), acc.push(cur))
    } else {
        split_acc(t.drop_first(), cur.push(t[0]), acc)
    }
}

/// The text split on the page-break marker; `n` markers yield `n + 1`
/// sections, and a text without one is a single section.
pub open spec fn split_sections(t: Seq<char>) -> Seq<Seq<char>> {
    split_acc(t, Seq::empty(), Seq::empty())
}

fn split_text(chars: &Vec<char>) -> (secs: Vec<Vec<char>>)
    ensures
        secs.deep_view() == split_sections(chars@),
        secs.len() >= 1,
{
    let mut acc: Vec<Vec<char>> = Vec::new();
    let mut cur: Vec<char> = Vec::new();
    let mut i: usize = 0;
    proof {
        assert(chars@.skip(0) =~= chars@);
        assert(acc.deep_view() =~~= Seq::<Seq<char>>::empty());
        assert(cur@ =~= Seq::<char>::empty());
    }
    while i < chars.len()
        invariant
            i <= chars.len(),
            split_acc(chars@.skip(i as int), cur@, acc.deep_view()) == split_sections(chars@),
        decreases chars.len() - i,
    {
        let ghost rest = chars@.skip(i as int);
        proof {
            assert(rest[0] == chars@[i as int]);
            assert(rest.drop_first() =~= chars@.skip(i as int + 1));
        }
        let c = chars[i];
        if c == '\u{c}' {
            let ghost av = acc.deep_view();
            let ghost cv = cur@;
            acc.push(cur);
            cur = Vec::new();
            proof {
                assert(acc.deep_view() =~~= av.push(cv));
            }
        } else {
            cur.push(c);
        }
        i += 1;
    }
    proof {
        assert(chars@.skip(chars.len() as int) =~= Seq::<char>::empty());
    }
    let ghost av = acc.deep_view();
    let ghost cv = cur@;
    acc.push(cur);
    proof {
        assert(acc.deep_view() =~~= av.push(cv));
    }
    acc
}

/// One section's lines laid into the page buffer: whenever the buffer has
/// already reached `h` lines, it is closed (trimmed) as a page before the
/// next line starts a fresh buffer.
pub open spec fn chunk_lines(
    lines: Seq<Seq<char>>,
    h: nat,
    pages: Seq<Seq<Seq<char>>>,
    buf: Seq<Seq<char>>,
) -> (Seq<Seq<Seq<char>>>, Seq<Seq<char>>)
    decreases lines.len(),
{
    if lines.len() == 0 {
        (pages, buf)
    } else if buf.len() >= h {
        chunk_lines(lines.drop_first(), h, pages.push(trim_page(buf)), seq![lines[0]])
    } else {
        chunk_lines(lines.drop_first(), h, pages, buf.push(lines[0]))
    }
}

/// The sections laid out in order.  When the document has more than one
/// section (`multi`), a section's end closes the page if the buffer holds
/// visible content, so an original page break is never merged away.
pub open spec fn chunk_sections(
    secs: Seq<Seq<Seq<char>>>,
    h: nat,
    multi: bool,
    pages: Seq<Seq<Seq<char>>>,
    buf: Seq<Seq<char>>,
) -> (Seq<Seq<Seq<char>>>, Seq<Seq<char>>)
    decreases secs.len(),
{
    if secs.len() == 0 {
        (pages, buf)
    } else {
        let pb = chunk_lines(secs[0], h, pages, buf);
        let closed = if multi && has_content(pb.1) {
            (pb.0.push(trim_page(pb.1)), Seq::<Seq<char>>::empty())
        } else {
            pb
        };
        chunk_sections(secs.drop_first(), h, multi, closed.0, closed.1)
    }
}

/// All pages cut from the wrapped sections, with a final page for whatever
/// visible content remains in the buffer.
pub open spec fn chunk_pages(secs: Seq<Seq<Seq<char>>>, h: nat, multi: bool) -> Seq<
    Seq<Seq<char>>,
> {
    let pb = chunk_sections(secs, h, multi, Seq::empty(), Seq::empty());
    if has_content(pb.1) {
        pb.0.push(trim_page(pb.1))
    } else {
        pb.0
    }
}

/// Cuts the wrapped sections into pages, as `chunk_pages` states.
fn cut_pages(secs: &Vec<Vec<String>>, h: usize, multi: bool) -> (pages: Vec<Page>)
    ensures
        pages.deep_view() == chunk_pages(secs.deep_view(), h as nat, multi),
{
    let ghost sv = secs.deep_view();
    let ghost full = chunk_sections(sv, h as nat, multi, Seq::empty(), Seq::empty());
    let mut pages: Vec<Page> = Vec::new();
    let mut buf: Vec<String> = Vec::new();
    let mut si: usize = 0;
    proof {
        assert(sv.skip(0) =~= sv);
        assert(pages.deep_view() =~~= Seq::<Seq<Seq<char>>>::empty());
        assert(buf.deep_view() =~~= Seq::<Seq<char>>::empty());
    }
    while si < secs.len()
        invariant
            si <= secs.len(),
            sv == secs.deep_view(),
            chunk_sections(
                sv.skip(si as int),
                h as nat,
                multi,
                pages.deep_view(),
                buf.deep_view(),
            ) == full,
        decreases secs.len() - si,
    {
        let ghost pages0 = pages.deep_view();
        let ghost buf0 = buf.deep_view();
        let ghost lv = sv[si as int];
        let n = secs[si].len();
        let mut li: usize = 0;
        proof {
            assert(lv.skip(0) =~= lv);
            assert(lv == secs@[si as int].deep_view());
        }
        while li < n
            invariant
                li <= n,
                si < secs.len(),
                sv == secs.deep_view(),
                lv == sv[si as int],
                n == lv.len(),
                chunk_sections(sv.skip(si as int), h as nat, multi, pages0, buf0) == full,
                chunk_lines(lv.skip(li as int), h as nat, pages.deep_view(), buf.deep_view())
                    == chunk_lines(lv, h as nat, pages0, buf0),
            decreases n - li,
        {
            let ghost pagesv = pages.deep_view();
            let ghost bufv = buf.deep_view();
            proof {
                assert(lv.skip(li as int)[0] == lv[li as int]);
                assert(lv.skip(li as int).drop_first() =~= lv.skip(li as int + 1));
            }
            if buf.len() >= h {
                let t = trim_lines(&buf);
                pages.push(Page::new(t));
                buf = Vec::new();
                proof {
                    assert(pages.deep_view() =~~= pagesv.push(trim_page(bufv)));
                    assert(buf.deep_view() =~~= Seq::<Seq<char>>::empty());
                }
            }
            let ghost mid = buf.deep_view();
            let x = secs[si][li].clone();
            proof {
                assert(secs@[si as int].deep_view()[li as int] == secs@[si as int]@[li as int]@);
                assert(x@ == lv[li as int]);
            }
            buf.push(x);
            proof {
                assert(buf.deep_view() =~~= mid.push(lv[li as int]));
                assert(chunk_lines(
                    lv.skip(li as int + 1),
                    h as nat,
                    pages.deep_view(),
                    buf.deep_view(),
                ) == chunk_lines(lv.skip(li as int), h as nat, pagesv, bufv));
            }
            li += 1;
        }
        proof {
            assert(lv.skip(n as int) =~= Seq::<Seq<char>>::empty());
        }
        if multi && lines_have_content(&buf) {
            let t = trim_lines(&buf);
            let ghost pv = pages.deep_view();
            let ghost bv = buf.deep_view();
            pages.push(Page::new(t));
            buf = Vec::new();
            proof {
                assert(pages.deep_view() =~~= pv.push(trim_page(bv)));
                assert(buf.deep_view() =~~= Seq::<Seq<char>>::empty());
            }
        }
        proof {
            assert(sv.skip(si as int)[0] == lv);
            assert(sv.skip(si as int).drop_first() =~= sv.skip(si as int + 1));
            assert(chunk_sections(
                sv.skip(si as int + 1),
                h as nat,
                multi,
                pages.deep_view(),
                buf.deep_view(),
            ) == full);
        }
        si += 1;
    }
    proof {
        assert(sv.skip(secs.len() as int) =~= Seq::<Seq<Seq<char>>>::empty());
    }
    if lines_have_content(&buf) {
        let t = trim_lines(&buf);
        let ghost pv = pages.deep_view();
        let ghost bv = buf.deep_view();
        pages.push(Page::new(t));
        proof {
            assert(pages.deep_view() =~~= pv.push(trim_page(bv)));
        }
    }
    pages
}

/// A budget of at least one line keeps every cut page within `h` lines.
proof fn lemma_chunk_lines_height(
    lines: Seq<Seq<char>>,
    h: nat,
    pages: Seq<Seq<Seq<char>>>,
    buf: Seq<Seq<char>>,
)
    requires
        h >= 1,
        forall|p: int| 0 <= p < pages.len() ==> (#[trigger] pages[p]).len() <= h,
        buf.len() <= h,
    ensures
        forall|p: int|
            0 <= p < chunk_lines(lines, h, pages, buf).0.len() ==> (#[trigger] chunk_lines(
                lines,
                h,
                pages,
                buf,
            ).0[p]).len() <= h,
        chunk_lines(lines, h, pages, buf).1.len() <= h,
    decreases lines.len(),
{
    if lines.len() == 0 {
    } else if buf.len() >= h {
        lemma_trim_len(buf);
        let pages2 = pages.push(trim_page(buf));
        assert forall|p: int| 0 <= p < pages2.len() implies (#[trigger] pages2[p]).len() <= h by {
            if p < pages.len() {
                assert(pages2[p] == pages[p]);
            } else {
                assert(pages2[p] == trim_page(buf));
            }
        }
        lemma_chunk_lines_height(lines.drop_first(), h, pages2, seq![lines[0]]);
    } else {
        lemma_chunk_lines_height(lines.drop_first(), h, pages, buf.push(lines[0]));
    }
}

proof fn lemma_chunk_sections_height(
    secs: Seq<Seq<Seq<char>>>,
    h: nat,
    multi: bool,
    pages: Seq<Seq<Seq<char>>>,
    buf: Seq<Seq<char>>,
)
    requires
        h >= 1,
        forall|p: int| 0 <= p < pages.len() ==> (#[trigger] pages[p]).len() <= h,
        buf.len() <= h,
    ensures
        forall|p: int|
            0 <= p < chunk_sections(secs, h, multi, pages, buf).0.len() ==> (
            #[trigger] chunk_sections(secs, h, multi, pages, buf).0[p]).len() <= h,
        chunk_sections(secs, h, multi, pages, buf).1.len() <= h,
    decreases secs.len(),
{
    if secs.len() > 0 {
        lemma_chunk_lines_height(secs[0], h, pages, buf);
        let pb = chunk_lines(secs[0], h, pages, buf);
        if multi && has_content(pb.1) {
            lemma_trim_len(pb.1);
            let pages2 = pb.0.push(trim_page(pb.1));
            assert forall|p: int| 0 <= p < pages2.len() implies (#[trigger] pages2[p]).len()
                <= h by {
                if p < pb.0.len() {
                    assert(pages2[p] == pb.0[p]);
                } else {
                    assert(pages2[p] == trim_page(pb.1));
                }
            }
            lemma_chunk_sections_height(secs.drop_first(), h, multi, pages2, Seq::empty());
        } else {
            lemma_chunk_sections_height(secs.drop_first(), h, multi, pb.0, pb.1);
        }
    }
}

/// Height bound: with a content height of at least one line, every cut page
/// holds at most `h` lines.
pub proof fn lemma_chunk_pages_height(secs: Seq<Seq<Seq<char>>>, h: nat, multi: bool)
    requires
        h >= 1,
    ensures
        forall|p: int|
            0 <= p < chunk_pages(secs, h, multi).len() ==> (#[trigger] chunk_pages(
                secs,
                h,
                multi,
            )[p]).len() <= h,
{
    lemma_chunk_sections_height(secs, h, multi, Seq::empty(), Seq::empty());
    let pb = chunk_sections(secs, h, multi, Seq::empty(), Seq::empty());
    if has_content(pb.1) {
        lemma_trim_len(pb.1);
        let pages2 = pb.0.push(trim_page(pb.1));
        assert forall|p: int| 0 <= p < pages2.len() implies (#[trigger] pages2[p]).len() <= h by {
            if p < pb.0.len() {
                assert(pages2[p] == pb.0[p]);
            } else {
                assert(pages2[p] == trim_page(pb.1));
            }
        }
    }
}

proof fn lemma_chunk_lines_width(
    lines: Seq<Seq<char>>,
    h: nat,
    pages: Seq<Seq<Seq<char>>>,
    buf: Seq<Seq<char>>,
    w: nat,
)
    requires
        lines_within(lines, w),
        lines_within(buf, w),
        forall|p: int| 0 <= p < pages.len() ==> lines_within(#[trigger] pages[p], w),
    ensures
        forall|p: int|
            0 <= p < chunk_lines(lines, h, pages, buf).0.len() ==> lines_within(
                #[trigger] chunk_lines(lines, h, pages, buf).0[p],
                w,
            ),
        lines_within(chunk_lines(lines, h, pages, buf).1, w),
    decreases lines.len(),
{
    if lines.len() == 0 {
    } else {
        let tail = lines.drop_first();
        assert forall|i: int| 0 <= i < tail.len() implies (#[trigger] tail[i]).len() <= w by {
            assert(tail[i] == lines[i + 1]);
        }
        if buf.len() >= h {
            lemma_trim_within(buf, w);
            let pages2 = pages.push(trim_page(buf));
            assert forall|p: int| 0 <= p < pages2.len() implies lines_within(
                #[trigger] pages2[p],
                w,
            ) by {
                if p < pages.len() {
                    assert(pages2[p] == pages[p]);
                } else {
                    assert(pages2[p] == trim_page(buf));
                }
            }
            assert(lines_within(seq![lines[0]], w));
            lemma_chunk_lines_width(tail, h, pages2, seq![lines[0]], w);
        } else {
            let buf2 = buf.push(lines[0]);
            assert forall|i: int| 0 <= i < buf2.len() implies (#[trigger] buf2[i]).len() <= w by {
                if i < buf.len() {
                    assert(buf2[i] == buf[i]);
                } else {
                    assert(buf2[i] == lines[0]);
                }
            }
            lemma_chunk_lines_width(tail, h, pages, buf2, w);
        }
    }
}

proof fn lemma_chunk_sections_width(
    secs: Seq<Seq<Seq<char>>>,
    h: nat,
    multi: bool,
    pages: Seq<Seq<Seq<char>>>,
    buf: Seq<Seq<char>>,
    w: nat,
)
    requires
        forall|i: int| 0 <= i < secs.len() ==> lines_within(#[trigger] secs[i], w),
        lines_within(buf, w),
        forall|p: int| 0 <= p < pages.len() ==> lines_within(#[trigger] pages[p], w),
    ensures
        forall|p: int|
            0 <= p < chunk_sections(secs, h, multi, pages, buf).0.len() ==> lines_within(
                #[trigger] chunk_sections(secs, h, multi, pages, buf).0[p],
                w,
            ),
        lines_within(chunk_sections(secs, h, multi, pages, buf).1, w),
    decreases secs.len(),
{
    if secs.len() > 0 {
        lemma_chunk_lines_width(secs[0], h, pages, buf, w);
        let pb = chunk_lines(secs[0], h, pages, buf);
        let tail = secs.drop_first();
        assert forall|i: int| 0 <= i < tail.len() implies lines_within(#[trigger] tail[i], w) by {
            assert(tail[i] == secs[i + 1]);
        }
        if multi && has_content(pb.1) {
            lemma_trim_within(pb.1, w);
            let pages2 = pb.0.push(trim_page(pb.1));
            assert forall|p: int| 0 <= p < pages2.len() implies lines_within(
                #[trigger] pages2[p],
                w,
            ) by {
                if p < pb.0.len() {
                    assert(pages2[p] == pb.0[p]);
                } else {
                    assert(pages2[p] == trim_page(pb.1));
                }
            }
            lemma_chunk_sections_width(tail, h, multi, pages2, Seq::empty(), w);
        } else {
            lemma_chunk_sections_width(tail, h, multi, pb.0, pb.1, w);
        }
    }
}

/// Width bound: when every wrapped line fits `w` columns, so does every
/// line of every cut page.
pub proof fn lemma_chunk_pages_width(secs: Seq<Seq<Seq<char>>>, h: nat, multi: bool, w: nat)
    requires
        forall|i: int| 0 <= i < secs.len() ==> lines_within(#[trigger] secs[i], w),
    ensures
        forall|p: int|
            0 <= p < chunk_pages(secs, h, multi).len() ==> lines_within(
                #[trigger] chunk_pages(secs, h, multi)[p],
                w,
            ),
{
    lemma_chunk_sections_width(secs, h, multi, Seq::empty(), Seq::empty(), w);
    let pb = chunk_sections(secs, h, multi, Seq::empty(), Seq::empty());
    if has_content(pb.1) {
        lemma_trim_within(pb.1, w);
        let pages2 = pb.0.push(trim_page(pb.1));
        assert forall|p: int| 0 <= p < pages2.len() implies lines_within(
            #[trigger] pages2[p],
            w,
        ) by {
            if p < pb.0.len() {
                assert(pages2[p] == pb.0[p]);
            } else {
                assert(pages2[p] == trim_page(pb.1));
            }
        }
    }
}

proof fn lemma_chunk_lines_content(
    lines: Seq<Seq<char>>,
    h: nat,
    pages: Seq<Seq<Seq<char>>>,
    buf: Seq<Seq<char>>,
)
    requires
        pages.len() >= 1 || has_content(buf) || has_content(lines),
    ensures
        chunk_lines(lines, h, pages, buf).0.len() >= 1 || has_content(
            chunk_lines(lines, h, pages, buf).1,
        ),
    decreases lines.len(),
{
    if lines.len() == 0 {
    } else {
        let tail = lines.drop_first();
        if buf.len() >= h {
            lemma_chunk_lines_content(tail, h, pages.push(trim_page(buf)), seq![lines[0]]);
        } else {
            let buf2 = buf.push(lines[0]);
            if pages.len() >= 1 {
            } else if has_content(buf) {
                let i = choose|i: int| 0 <= i < buf.len() && !line_blank(#[trigger] buf[i]);
                assert(buf2[i] == buf[i]);
                assert(has_content(buf2));
            } else {
                let j = choose|j: int| 0 <= j < lines.len() && !line_blank(#[trigger] lines[j]);
                if j == 0 {
                    assert(buf2[buf.len() as int] == lines[0]);
                    assert(has_content(buf2));
                } else {
                    assert(tail[j - 1] == lines[j]);
                    assert(has_content(tail));
                }
            }
            lemma_chunk_lines_content(tail, h, pages, buf2);
        }
    }
}

proof fn lemma_chunk_sections_content(
    secs: Seq<Seq<Seq<char>>>,
    h: nat,
    multi: bool,
    pages: Seq<Seq<Seq<char>>>,
    buf: Seq<Seq<char>>,
)
    requires
        pages.len() >= 1 || has_content(buf) || (exists|i: int|
            0 <= i < secs.len() && has_content(#[trigger] secs[i])),
    ensures
        chunk_sections(secs, h, multi, pages, buf).0.len() >= 1 || has_content(
            chunk_sections(secs, h, multi, pages, buf).1,
        ),
    decreases secs.len(),
{
    if secs.len() == 0 {
    } else {
        let pb = chunk_lines(secs[0], h, pages, buf);
        let tail = secs.drop_first();
        if pages.len() >= 1 || has_content(buf) || has_content(secs[0]) {
            lemma_chunk_lines_content(secs[0], h, pages, buf);
        } else {
            let i = choose|i: int| 0 <= i < secs.len() && has_content(#[trigger] secs[i]);
            assert(tail[i - 1] == secs[i]);
            assert(exists|k: int| 0 <= k < tail.len() && has_content(#[trigger] tail[k]));
        }
        if multi && has_content(pb.1) {
            lemma_chunk_sections_content(tail, h, multi, pb.0.push(trim_page(pb.1)), Seq::empty());
        } else {
            lemma_chunk_sections_content(tail, h, multi, pb.0, pb.1);
        }
    }
}

/// Non-emptiness: a document with visible content in some section always
/// yields at least one page.
pub proof fn lemma_chunk_pages_nonempty(secs: Seq<Seq<Seq<char>>>, h: nat, multi: bool)
    requires
        exists|i: int| 0 <= i < secs.len() && has_content(#[trigger] secs[i]),
    ensures
        chunk_pages(secs, h, multi).len() >= 1,
{
    lemma_chunk_sections_content(secs, h, multi, Seq::empty(), Seq::empty());
}

proof fn lemma_chunk_lines_fits(
    lines: Seq<Seq<char>>,
    h: nat,
    pages: Seq<Seq<Seq<char>>>,
    buf: Seq<Seq<char>>,
)
    requires
        buf.len() + lines.len() <= h,
    ensures
        chunk_lines(lines, h, pages, buf) == (pages, buf + lines),
    decreases lines.len(),
{
    if lines.len() == 0 {
        assert(buf + lines =~= buf);
    } else {
        lemma_chunk_lines_fits(lines.drop_first(), h, pages, buf.push(lines[0]));
        assert(buf.push(lines[0]) + lines.drop_first() =~= buf + lines);
    }
}

/// Section-break preservation: a document of exactly two sections whose
/// wrapped lines each fit within one page and each hold visible content is
/// cut to exactly two pages — the first from the first section, the second
/// from the second, never merged.
pub proof fn lemma_two_short_sections(la: Seq<Seq<char>>, lb: Seq<Seq<char>>, h: nat)
    requires
        la.len() <= h,
        lb.len() <= h,
        has_content(la),
        has_content(lb),
    ensures
        chunk_pages(seq![la, lb], h, true) == seq![trim_page(la), trim_page(lb)],
{
    let secs = seq![la, lb];
    let empty_pages = Seq::<Seq<Seq<char>>>::empty();
    let empty_buf = Seq::<Seq<char>>::empty();
    assert(secs[0] == la);
    lemma_chunk_lines_fits(la, h, empty_pages, empty_buf);
    assert(empty_buf + la =~= la);
    let one = empty_pages.push(trim_page(la));
    assert(secs.drop_first() =~= seq![lb]);
    assert(seq![lb][0] == lb);
    lemma_chunk_lines_fits(lb, h, one, empty_buf);
    assert(empty_buf + lb =~= lb);
    let two = one.push(trim_page(lb));
    assert(seq![lb].drop_first() =~= Seq::<Seq<Seq<char>>>::empty());
    assert(chunk_lines(secs[0], h, empty_pages, empty_buf) == (empty_pages, la));
    assert(chunk_sections(secs, h, true, empty_pages, empty_buf) == chunk_sections(
        seq![lb],
        h,
        true,
        one,
        empty_buf,
    ));
    assert(chunk_lines(seq![lb][0], h, one, empty_buf) == (one, lb));
    assert(chunk_sections(seq![lb], h, true, one, empty_buf) == chunk_sections(
        Seq::<Seq<Seq<char>>>::empty(),
        h,
        true,
        two,
        empty_buf,
    ));
    assert(chunk_sections(secs, h, true, empty_pages, empty_buf) == (two, empty_buf));
    assert(!has_content(empty_buf));
    assert(chunk_pages(secs, h, true) =~= seq![trim_page(la), trim_page(lb)]);
}

/// The fixed explanation shown when no usable text was extracted.  It is
/// the same for every viewport.
pub open spec fn placeholder_lines() -> Seq<Seq<char>> {
    seq![
        "No text could be extracted from this document."@,
        ""@,
        "This can happen with:"@,
        "- documents that are mostly images"@,
        "- documents with embedded or outlined text"@,
        "- documents with unusual encodings"@,
        ""@,
        "Try a document that contains selectable text."@,
    ]
}

fn placeholder_page() -> (p: Page)
    ensures
        p@ == placeholder_lines(),
{
    let mut lines: Vec<String> = Vec::new();
    lines.push("No text could be extracted from this document.".to_owned());
    lines.push("".to_owned());
    lines.push("This can happen with:".to_owned());
    lines.push("- documents that are mostly images".to_owned());
    lines.push("- documents with embedded or outlined text".to_owned());
    lines.push("- documents with unusual encodings".to_owned());
    lines.push("".to_owned());
    lines.push("Try a document that contains selectable text.".to_owned());
    proof {
        assert(lines.deep_view() =~~= placeholder_lines());
    }
    Page::new(lines)
}

/// The page set for `text` at content size `cw` by `ch`: a blank text
/// yields the placeholder alone; any other text is split on the page-break
/// marker, wrapped section by section and cut to height, and rewrapped
/// whole as a fallback should that cut yield no page.
pub open spec fn spec_paginate(text: Seq<char>, cw: nat, ch: nat) -> Seq<Seq<Seq<char>>> {
    if line_blank(text) {
        seq![placeholder_lines()]
    } else {
        let secs = split_sections(text);
        let wrapped = secs.map_values(|s: Seq<char>| section_lines(s, cw));
        let pages = chunk_pages(wrapped, ch, secs.len() > 1);
        if pages.len() == 0 {
            chunk_pages(seq![section_lines(text, cw)], ch, false)
        } else {
            pages
        }
    }
}

/// Reflows `text` into the pages shown in `vp`.  The page set is never
/// empty; a blank text yields exactly the placeholder page; and for a
/// positive content budget no page exceeds the content height, nor any of
/// its lines the content width.
pub fn paginate(text: &str, vp: &Viewport) -> (pages: Vec<Page>)
    ensures
        pages.deep_view() == spec_paginate(
            text@,
            vp.spec_content_width(),
            vp.spec_content_height(),
        ),
        pages.len() >= 1,
        line_blank(text@) ==> pages.deep_view() == seq![placeholder_lines()],
        vp.spec_content_height() >= 1 && !line_blank(text@) ==> forall|p: int|
            0 <= p < pages.deep_view().len() ==> (#[trigger] pages.deep_view()[p]).len()
                <= vp.spec_content_height(),
        vp.spec_content_width() >= 1 && !line_blank(text@) ==> forall|p: int|
            0 <= p < pages.deep_view().len() ==> lines_within(
                #[trigger] pages.deep_view()[p],
                vp.spec_content_width(),
            ),
{
    let chars = str_chars(text);
    if chars_blank(&chars) {
        let mut pages: Vec<Page> = Vec::new();
        pages.push(placeholder_page());
        proof {
            assert(pages.deep_view() =~~= seq![placeholder_lines()]);
        }
        return pages;
    }
    let cw = vp.content_width();
    let ch = vp.content_height();
    let secs = split_text(&chars);
    let multi = secs.len() > 1;
    let ghost ssecs = split_sections(text@);
    let ghost mapped = ssecs.map_values(|s: Seq<char>| section_lines(s, cw as nat));
    let mut wrapped: Vec<Vec<String>> = Vec::new();
    let mut i: usize = 0;
    proof {
        assert(wrapped.deep_view() =~~= mapped.take(0));
    }
    while i < secs.len()
        invariant
            i <= secs.len(),
            secs.deep_view() == ssecs,
            cw == vp.spec_content_width(),
            mapped == ssecs.map_values(|s: Seq<char>| section_lines(s, cw as nat)),
            wrapped.deep_view() == mapped.take(i as int),
        decreases secs.len() - i,
    {
        let s = chars_to_string(&secs[i]);
        proof {
            assert(secs@[i as int].deep_view() == ssecs[i as int]);
            assert(s@ == ssecs[i as int]);
        }
        let ls = wrap_section(s.as_str(), cw);
        let ghost wv = wrapped.deep_view();
        proof {
            assert(ls.deep_view() == mapped[i as int]);
        }
        wrapped.push(ls);
        i += 1;
        proof {
            assert(wv.len() == i - 1);
            assert(wrapped@.len() == i);
            assert forall|j: int| 0 <= j < i implies wrapped.deep_view()[j] == mapped[j] by {
                if j < i - 1 {
                    assert(wrapped.deep_view()[j] == wv[j]);
                    assert(wv[j] == mapped.take(i - 1)[j]);
                } else {
                    assert(wrapped.deep_view()[j] == ls.deep_view());
                }
            }
            assert(wrapped.deep_view() =~~= mapped.take(i as int));
        }
    }
    proof {
        assert(mapped.take(secs.len() as int) =~= mapped);
    }
    let first_cut = cut_pages(&wrapped, ch, multi);
    if first_cut.len() == 0 {
        let fl = wrap_section(text, cw);
        let ghost flv = fl.deep_view();
        let mut one: Vec<Vec<String>> = Vec::new();
        proof {
            assert(one.deep_view() =~~= Seq::<Seq<Seq<char>>>::empty());
        }
        one.push(fl);
        proof {
            assert(one.deep_view() =~~= seq![flv]);
        }
        let pages = cut_pages(&one, ch, false);
        proof {
            assert(exists|k: int| 0 <= k < text@.len() && !is_space(#[trigger] text@[k]));
            assert(has_content(flv));
            assert(seq![flv][0] == flv);
            lemma_chunk_pages_nonempty(seq![flv], ch as nat, false);
            if ch >= 1 {
                lemma_chunk_pages_height(seq![flv], ch as nat, false);
            }
            if cw >= 1 {
                lemma_break_lines_width(crate::wrap::wrap_of(text@, cw as nat), cw as nat);
                assert(lines_within(flv, cw as nat));
                assert forall|k: int| 0 <= k < seq![flv].len() implies lines_within(
                    #[trigger] seq![flv][k],
                    cw as nat,
                ) by {
                    assert(seq![flv][k] == flv);
                }
                lemma_chunk_pages_width(seq![flv], ch as nat, false, cw as nat);
            }
        }
        pages
    } else {
        proof {
            if ch >= 1 {
                lemma_chunk_pages_height(mapped, ch as nat, multi);
            }
            if cw >= 1 {
                assert forall|k: int| 0 <= k < mapped.len() implies lines_within(
                    #[trigger] mapped[k],
                    cw as nat,
                ) by {
                    assert(mapped[k] == section_lines(ssecs[k], cw as nat));
                    lemma_break_lines_width(crate::wrap::wrap_of(ssecs[k], cw as nat), cw as nat);
                }
                lemma_chunk_pages_width(mapped, ch as nat, multi, cw as nat);
            }
        }
        first_cut
    }
}

} // verus!
