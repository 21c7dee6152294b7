//! Word-wrapping of one section of text.  The greedy wrap itself is done by
//! an outside crate; a verified hard-break pass then guarantees the column
//! bound that the layout depends on.
use vstd::prelude::*;
use crate::text::{is_space, line_blank};

verus! {

/// The lines that textwrap's greedy fill produces for `s` at `w` columns.
pub uninterp spec fn wrap_of(s: Seq<char>, w: nat) -> Seq<Seq<char>>;

/// Relies on textwrap::fill (with str::lines on its result): the wrap
/// depends on the text and the width alone, and the only characters it ever
/// drops are whitespace (word-trailing blanks and line breaks), so a text
/// with a visible character wraps to at least one non-blank line.
#[verifier::external_body]
fn fill_lines(s: &str, width: usize) -> (r: Vec<String>)
    ensures
        r.deep_view() == wrap_of(s@, width as nat),
        (exists|i: int| 0 <= i < s@.len() && !is_space(#[trigger] s@[i])) ==> (exists|j: int|
            0 <= j < r.deep_view().len() && !line_blank(#[trigger] r.deep_view()[j])),
{
    let filled = textwrap::fill(s, width);
    filled.lines().map(|l| l.to_string()).collect()
}

/// One line hard-broken at `w` columns: full pieces of exactly `w`
/// characters, then a final piece of at most `w`.  A zero budget leaves the
/// line whole.
pub open spec fn break_line(l: Seq<char>, w: nat) -> Seq<Seq<char>>
    decreases l.len(),
{
    if w == 0 || l.len() <= w {
        seq![l]
    } else {
        seq![l.take(w as int)] + break_line(l.skip(w as int), w)
    }
}

/// Every line hard-broken at `w` columns, in order.
pub open spec fn break_lines(ls: Seq<Seq<char>>, w: nat) -> Seq<Seq<char>>
    decreases ls.len(),
{
    if ls.len() == 0 {
        Seq::empty()
    } else {
        break_line(ls[0], w) + break_lines(ls.drop_first(), w)
    }
}

/// The display lines of one section: the greedy wrap at `w` columns, then
/// any line still wider than `w` (a single unbreakable word) hard-broken at
/// the column boundary.
pub open spec fn section_lines(s: Seq<char>, w: nat) -> Seq<Seq<char>> {
    if w == 0 {
        wrap_of(s, 0)
    } else {
        break_lines(wrap_of(s, w), w)
    }
}

/// Hard-breaking keeps every piece within the column budget.
pub proof fn lemma_break_line_width(l: Seq<char>, w: nat)
    requires
        w >= 1,
    ensures
        forall|k: int|
            0 <= k < break_line(l, w).len() ==> (#[trigger] break_line(l, w)[k]).len() <= w,
    decreases l.len(),
{
    if w == 0 || l.len() <= w {
    } else {
        lemma_break_line_width(l.skip(w as int), w);
        assert forall|k: int| 0 <= k < break_line(l, w).len() implies (#[trigger] break_line(
            l,
            w,
        )[k]).len() <= w by {
            if k == 0 {
                assert(break_line(l, w)[0] == l.take(w as int));
            } else {
                assert(break_line(l, w)[k] == break_line(l.skip(w as int), w)[k - 1]);
            }
        }
    }
}

pub proof fn lemma_break_lines_width(ls: Seq<Seq<char>>, w: nat)
    requires
        w >= 1,
    ensures
        forall|k: int|
            0 <= k < break_lines(ls, w).len() ==> (#[trigger] break_lines(ls, w)[k]).len() <= w,
    decreases ls.len(),
{
    if ls.len() > 0 {
        lemma_break_line_width(ls[0], w);
        lemma_break_lines_width(ls.drop_first(), w);
        let head = break_line(ls[0], w);
        let tail = break_lines(ls.drop_first(), w);
        assert forall|k: int| 0 <= k < break_lines(ls, w).len() implies (#[trigger] break_lines(
            ls,
            w,
        )[k]).len() <= w by {
            if k < head.len() {
                assert(break_lines(ls, w)[k] == head[k]);
            } else {
                assert(break_lines(ls, w)[k] == tail[k - head.len()]);
            }
        }
    }
}

/// Hard-breaking a non-blank line leaves some piece non-blank.
proof fn lemma_break_line_nonblank(l: Seq<char>, w: nat)
    requires
        !line_blank(l),
    ensures
        exists|k: int| 0 <= k < break_line(l, w).len() && !line_blank(
            #[trigger] break_line(l, w)[k],
        ),
    decreases l.len(),
{
    let i = choose|i: int| 0 <= i < l.len() && !is_space(l[i]);
    if w == 0 || l.len() <= w {
        assert(!line_blank(break_line(l, w)[0]));
    } else if i < w {
        assert(l.take(w as int)[i] == l[i]);
        assert(!line_blank(break_line(l, w)[0]));
    } else {
        assert(l.skip(w as int)[i - w] == l[i]);
        assert(!line_blank(l.skip(w as int)));
        lemma_break_line_nonblank(l.skip(w as int), w);
        let k = choose|k: int|
            0 <= k < break_line(l.skip(w as int), w).len() && !line_blank(
                break_line(l.skip(w as int), w)[k],
            );
        assert(break_line(l, w)[k + 1] == break_line(l.skip(w as int), w)[k]);
    }
}

proof fn lemma_break_lines_nonblank(ls: Seq<Seq<char>>, w: nat)
    requires
        exists|j: int| 0 <= j < ls.len() && !line_blank(#[trigger] ls[j]),
    ensures
        exists|k: int| 0 <= k < break_lines(ls, w).len() && !line_blank(
            #[trigger] break_lines(ls, w)[k],
        ),
    decreases ls.len(),
{
    let j = choose|j: int| 0 <= j < ls.len() && !line_blank(ls[j]);
    if j == 0 {
        lemma_break_line_nonblank(ls[0], w);
        let k = choose|k: int|
            0 <= k < break_line(ls[0], w).len() && !line_blank(break_line(ls[0], w)[k]);
        assert(break_lines(ls, w)[k] == break_line(ls[0], w)[k]);
        assert(!line_blank(break_lines(ls, w)[k]));
    } else {
        assert(ls.drop_first()[j - 1] == ls[j]);
        lemma_break_lines_nonblank(ls.drop_first(), w);
        let k = choose|k: int|
            0 <= k < break_lines(ls.drop_first(), w).len() && !line_blank(
                break_lines(ls.drop_first(), w)[k],
            );
        let off = break_line(ls[0], w).len();
        assert(break_lines(ls, w)[k + off] == break_lines(ls.drop_first(), w)[k]);
        assert(!line_blank(break_lines(ls, w)[k + off]));
    }
}

/// Appends the pieces of `l` hard-broken at `w` columns.
fn hard_break_line(l: &String, w: usize, out: &mut Vec<String>)
    requires
        w >= 1,
    ensures
        final(out).deep_view() == old(out).deep_view() + break_line(l@, w as nat),
{
    let s = l.as_str();
    let n = s.unicode_len();
    let mut i: usize = 0;
    proof {
        assert(l@.skip(0) =~= l@);
    }
    while n - i > w
        invariant
            w >= 1,
            i <= n,
            n == l@.len(),
            s@ == l@,
            out.deep_view() + break_line(l@.skip(i as int), w as nat) == old(out).deep_view()
                + break_line(l@, w as nat),
        decreases n - i,
    {
        let ghost rest = l@.skip(i as int);
        let ghost pre = out.deep_view();
        let piece = s.substring_char(i, i + w).to_owned();
        proof {
            assert(piece@ =~= rest.take(w as int));
        }
        out.push(piece);
        proof {
            assert(l@.skip(i as int + w as int) =~= rest.skip(w as int));
            assert(break_line(rest, w as nat) == seq![rest.take(w as int)] + break_line(
                rest.skip(w as int),
                w as nat,
            ));
            assert(out.deep_view() =~= pre + seq![rest.take(w as int)]);
            assert(out.deep_view() + break_line(rest.skip(w as int), w as nat) =~= pre
                + break_line(rest, w as nat));
        }
        i += w;
    }
    let ghost rest = l@.skip(i as int);
    let ghost pre = out.deep_view();
    let piece = s.substring_char(i, n).to_owned();
    proof {
        assert(piece@ =~= rest);
        assert(break_line(rest, w as nat) == seq![rest]);
    }
    out.push(piece);
    proof {
        assert(out.deep_view() =~= pre + seq![rest]);
        assert(out.deep_view() =~= old(out).deep_view() + break_line(l@, w as nat));
    }
}

/// The display lines of one section, as `section_lines` states them; a
/// section with a visible character yields at least one non-blank line.
pub fn wrap_section(s: &str, w: usize) -> (r: Vec<String>)
    ensures
        r.deep_view() == section_lines(s@, w as nat),
        (exists|i: int| 0 <= i < s@.len() && !is_space(#[trigger] s@[i])) ==> (exists|j: int|
            0 <= j < r.deep_view().len() && !line_blank(#[trigger] r.deep_view()[j])),
{
    let wrapped = fill_lines(s, w);
    if w == 0 {
        return wrapped;
    }
    let ghost all = wrapped.deep_view();
    let mut out: Vec<String> = Vec::new();
    let mut j: usize = 0;
    proof {
        assert(all.skip(0) =~= all);
        assert(out.deep_view() + break_lines(all, w as nat) =~= break_lines(all, w as nat));
    }
    while j < wrapped.len()
        invariant
            w >= 1,
            j <= wrapped.len(),
            all == wrapped.deep_view(),
            out.deep_view() + break_lines(all.skip(j as int), w as nat) == break_lines(
                all,
                w as nat,
            ),
        decreases wrapped.len() - j,
    {
        let ghost pre = out.deep_view();
        hard_break_line(&wrapped[j], w, &mut out);
        proof {
            assert(all.skip(j as int).drop_first() =~= all.skip(j as int + 1));
            assert(all.skip(j as int)[0] == all[j as int]);
            assert(out.deep_view() + break_lines(all.skip(j as int + 1), w as nat) =~= break_lines(
                all,
                w as nat,
            ));
        }
        j += 1;
    }
    proof {
        assert(all.skip(wrapped.len() as int) =~= Seq::<Seq<char>>::empty());
        assert(out.deep_view() =~= break_lines(all, w as nat));
        if exists|i: int| 0 <= i < s@.len() && !is_space(#[trigger] s@[i]) {
            lemma_break_lines_nonblank(all, w as nat);
        }
    }
    out
}

} // verus!
