//! Character and string helpers: the whitespace predicate, blank lines,
//! decimal rendering of counters, and padding.
use vstd::prelude::*;

verus! {

/// The characters that Rust's `char::is_whitespace` reports as whitespace
/// (the Unicode `White_Space` property).
pub open spec fn is_space(c: char) -> bool {
    let n = c as u32;
    ||| n == 0x20
    ||| (0x09 <= n && n <= 0x0D)
    ||| n == 0x85
    ||| n == 0xA0
    ||| n == 0x1680
    ||| (0x2000 <= n && n <= 0x200A)
    ||| n == 0x2028
    ||| n == 0x2029
    ||| n == 0x202F
    ||| n == 0x205F
    ||| n == 0x3000
}

pub fn is_space_char(c: char) -> (r: bool)
    ensures
        r == is_space(c),
{
    let n = c as u32;
    n == 0x20 || (0x09 <= n && n <= 0x0D) || n == 0x85 || n == 0xA0 || n == 0x1680 || (0x2000 <= n
        && n <= 0x200A) || n == 0x2028 || n == 0x2029 || n == 0x202F || n == 0x205F || n == 0x3000
}

/// A line is blank when every character on it is whitespace; the empty
/// line is blank.
pub open spec fn line_blank(l: Seq<char>) -> bool {
    forall|i: int| 0 <= i < l.len() ==> is_space(#[trigger] l[i])
}

pub fn chars_blank(v: &Vec<char>) -> (r: bool)
    ensures
        r == line_blank(v@),
{
    let mut i: usize = 0;
    while i < v.len()
        invariant
            i <= v.len(),
            forall|j: int| 0 <= j < i ==> is_space(#[trigger] v@[j]),
        decreases v.len() - i,
    {
        if !is_space_char(v[i]) {
            return false;
        }
        i += 1;
    }
    true
}

/// Relies on str::chars: it yields exactly the string's characters in order.
#[verifier::external_body]
pub fn str_chars(s: &str) -> (r: Vec<char>)
    ensures
        r@ == s@,
{
    s.chars().collect()
}

/// Relies on String's FromIterator impl over char: collecting characters
/// builds the string of exactly those characters in order.
#[verifier::external_body]
pub fn chars_to_string(v: &Vec<char>) -> (r: String)
    ensures
        r@ == v@,
{
    v.iter().collect()
}

pub open spec fn digit_char(d: int) -> char {
    if d == 0 {
        '0'
    } else if d == 1 {
        '1'
    } else if d == 2 {
        '2'
    } else if d == 3 {
        '3'
    } else if d == 4 {
        '4'
    } else if d == 5 {
        '5'
    } else if d == 6 {
        '6'
    } else if d == 7 {
        '7'
    } else if d == 8 {
        '8'
    } else {
        '9'
    }
}

/// The decimal rendering of `n`, most significant digit first.
pub open spec fn dec_str(n: nat) -> Seq<char>
    decreases n,
{
    if n < 10 {
        seq![digit_char(n as int)]
    } else {
        dec_str(n / 10).push(digit_char((n % 10) as int))
    }
}

fn digit_to_char(d: usize) -> (c: char)
    requires
        d < 10,
    ensures
        c == digit_char(d as int),
{
    if d == 0 {
        '0'
    } else if d == 1 {
        '1'
    } else if d == 2 {
        '2'
    } else if d == 3 {
        '3'
    } else if d == 4 {
        '4'
    } else if d == 5 {
        '5'
    } else if d == 6 {
        '6'
    } else if d == 7 {
        '7'
    } else if d == 8 {
        '8'
    } else {
        '9'
    }
}

fn push_digits(n: usize, v: &mut Vec<char>)
    ensures
        final(v)@ == old(v)@ + dec_str(n as nat),
    decreases n,
{
    if n >= 10 {
        push_digits(n / 10, v);
    }
    let c = digit_to_char(n % 10);
    v.push(c);
    proof {
        assert(v@ =~= old(v)@ + dec_str(n as nat));
    }
}

pub fn usize_to_string(n: usize) -> (r: String)
    ensures
        r@ == dec_str(n as nat),
{
    let mut v: Vec<char> = Vec::new();
    push_digits(n, &mut v);
    proof {
        assert(v@ =~= dec_str(n as nat));
    }
    chars_to_string(&v)
}

/// `n` copies of the character `c`.
pub open spec fn repeat_char(c: char, n: nat) -> Seq<char> {
    Seq::new(n, |i: int| c)
}

/// Repeats a one-character string `n` times.
pub fn repeat_str(unit: &str, n: usize) -> (r: String)
    requires
        unit@.len() == 1,
    ensures
        r@ == repeat_char(unit@[0], n as nat),
{
    let mut r = String::new();
    let mut i: usize = 0;
    proof {
        assert(r@ =~= repeat_char(unit@[0], 0));
    }
    while i < n
        invariant
            i <= n,
            unit@.len() == 1,
            r@ == repeat_char(unit@[0], i as nat),
        decreases n - i,
    {
        r.append(unit);
        i += 1;
        proof {
            assert(r@ =~= repeat_char(unit@[0], i as nat));
        }
    }
    r
}

/// `l` left-aligned in a field `w` wide: a line that already fills or
/// overflows the field is kept whole.
pub open spec fn pad_right(l: Seq<char>, w: nat) -> Seq<char> {
    if l.len() >= w {
        l
    } else {
        l + repeat_char(' ', (w - l.len()) as nat)
    }
}

pub fn pad_line(l: &String, w: usize) -> (r: String)
    ensures
        r@ == pad_right(l@, w as nat),
{
    proof {
        reveal_strlit(" ");
    }
    let n = l.as_str().unicode_len();
    let mut r = l.clone();
    if n < w {
        let fill = repeat_str(" ", w - n);
        r.append(fill.as_str());
        proof {
            assert(r@ =~= pad_right(l@, w as nat));
        }
    }
    r
}

} // verus!
