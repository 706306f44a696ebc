//! Splitting a text into lines, and trimming whitespace around a line.

use vstd::prelude::*;

verus! {

/// End of the line `[start, i)` that a `\n` at `i` terminates: a `\r` before it is dropped.
pub open spec fn line_end(c: Seq<char>, start: int, i: int) -> int {
    if i > start && c[i - 1] == '\r' {
        i - 1
    } else {
        i
    }
}

/// The spans `(start, end)` of the lines of `c`, scanning from `i` with the current
/// line starting at `start`. A final line without `\n` keeps its characters as they are.
pub open spec fn scan_lines(c: Seq<char>, i: int, start: int, acc: Seq<(int, int)>) -> Seq<
    (int, int),
>
    decreases c.len() - i,
{
    if i >= c.len() {
        if start < c.len() {
            acc.push((start, c.len() as int))
        } else {
            acc
        }
    } else if c[i] == '\n' {
        scan_lines(c, i + 1, i + 1, acc.push((start, line_end(c, start, i))))
    } else {
        scan_lines(c, i + 1, start, acc)
    }
}

pub open spec fn line_spans(c: Seq<char>) -> Seq<(int, int)> {
    scan_lines(c, 0, 0, seq![])
}

/// The lines of a text, without their `\n` or `\r\n` terminators.
pub open spec fn text_lines(c: Seq<char>) -> Seq<Seq<char>> {
    line_spans(c).map_values(|p: (int, int)| c.subrange(p.0, p.1))
}

/// Line spans lie in order within the text: each ends before the next one starts.
pub open spec fn spans_ordered(s: Seq<(int, int)>, n: int) -> bool {
    &&& forall|k: int| 0 <= k < s.len() ==> 0 <= #[trigger] s[k].0 <= s[k].1 <= n
    &&& forall|k: int| 0 <= k < s.len() - 1 ==> #[trigger] s[k].1 < s[k + 1].0
}

proof fn lemma_scan_lines_ordered(c: Seq<char>, i: int, start: int, acc: Seq<(int, int)>)
    requires
        0 <= start <= i <= c.len(),
        spans_ordered(acc, c.len() as int),
        acc.len() > 0 ==> acc.last().1 < start,
    ensures
        spans_ordered(scan_lines(c, i, start, acc), c.len() as int),
    decreases c.len() - i,
{
    if i >= c.len() {
        if start < c.len() {
            let r = acc.push((start, c.len() as int));
            assert forall|k: int| 0 <= k < r.len() - 1 implies #[trigger] r[k].1 < r[k + 1].0 by {
                if k < acc.len() - 1 {
                    assert(r[k] == acc[k] && r[k + 1] == acc[k + 1]);
                }
            }
        }
    } else if c[i] == '\n' {
        let r = acc.push((start, line_end(c, start, i)));
        assert forall|k: int| 0 <= k < r.len() - 1 implies #[trigger] r[k].1 < r[k + 1].0 by {
            if k < acc.len() - 1 {
                assert(r[k] == acc[k] && r[k + 1] == acc[k + 1]);
            }
        }
        lemma_scan_lines_ordered(c, i + 1, i + 1, r);
    } else {
        lemma_scan_lines_ordered(c, i + 1, start, acc);
    }
}

pub proof fn lemma_line_spans_ordered(c: Seq<char>)
    ensures
        spans_ordered(line_spans(c), c.len() as int),
{
    lemma_scan_lines_ordered(c, 0, 0, seq![]);
}

/// The line spans of the characters `c`.
pub fn split_lines(c: &Vec<char>) -> (r: Vec<(usize, usize)>)
    ensures
        r@.map_values(|p: (usize, usize)| (p.0 as int, p.1 as int)) == line_spans(c@),
        spans_ordered(line_spans(c@), c@.len() as int),
{
    proof {
        lemma_line_spans_ordered(c@);
    }
    let n = c.len();
    let mut r: Vec<(usize, usize)> = Vec::new();
    let mut start: usize = 0;
    let mut i: usize = 0;
    assert(r@.map_values(|p: (usize, usize)| (p.0 as int, p.1 as int)) =~= seq![]);
    while i < n
        invariant
            n == c@.len(),
            start <= i <= n,
            scan_lines(c@, i as int, start as int, r@.map_values(|p: (usize, usize)| (p.0 as int, p.1 as int)))
                == line_spans(c@),
        decreases n - i,
    {
        if c[i] == '\n' {
            let end = if i > start && c[i - 1] == '\r' {
                i - 1
            } else {
                i
            };
            let ghost before = r@;
            r.push((start, end));
            assert(r@.map_values(|p: (usize, usize)| (p.0 as int, p.1 as int)) =~= before.map_values(
                |p: (usize, usize)| (p.0 as int, p.1 as int),
            ).push((start as int, end as int)));
            start = i + 1;
        }
        i += 1;
    }
    if start < n {
        let ghost before = r@;
        r.push((start, n));
        assert(r@.map_values(|p: (usize, usize)| (p.0 as int, p.1 as int)) =~= before.map_values(
            |p: (usize, usize)| (p.0 as int, p.1 as int),
        ).push((start as int, n as int)));
    }
    r
}

/// Unicode whitespace, the characters that trimming a line removes.
pub open spec fn is_white_spec(c: char) -> bool {
    let u = c as u32;
    (0x9 <= u <= 0xd) || u == 0x20 || u == 0x85 || u == 0xa0 || u == 0x1680 || (0x2000 <= u
        <= 0x200a) || u == 0x2028 || u == 0x2029 || u == 0x202f || u == 0x205f || u == 0x3000
}

pub fn is_white(c: char) -> (r: bool)
    ensures
        r == is_white_spec(c),
{
    let u = c as u32;
    (0x9 <= u && u <= 0xd) || u == 0x20 || u == 0x85 || u == 0xa0 || u == 0x1680 || (0x2000 <= u
        && u <= 0x200a) || u == 0x2028 || u == 0x2029 || u == 0x202f || u == 0x205f || u == 0x3000
}

/// `[a, b)` is what remains of `c` once whitespace is removed from both ends.
pub open spec fn trimmed_as(c: Seq<char>, a: int, b: int) -> bool {
    &&& 0 <= a <= b <= c.len()
    &&& forall|j: int| 0 <= j < a ==> is_white_spec(#[trigger] c[j])
    &&& forall|j: int| b <= j < c.len() ==> is_white_spec(#[trigger] c[j])
    &&& a < b ==> !is_white_spec(c[a]) && !is_white_spec(c[b - 1])
}

/// The first position at or after `i` that holds no whitespace, else the length.
pub open spec fn solid_from(c: Seq<char>, i: int) -> int
    decreases c.len() - i,
{
    if i >= c.len() {
        c.len() as int
    } else if !is_white_spec(c[i]) {
        i
    } else {
        solid_from(c, i + 1)
    }
}

/// The end of the last character before `j` that is no whitespace, else 0.
pub open spec fn solid_until(c: Seq<char>, j: int) -> int
    decreases j,
{
    if j <= 0 {
        0
    } else if !is_white_spec(c[j - 1]) {
        j
    } else {
        solid_until(c, j - 1)
    }
}

/// `c` without its leading and trailing whitespace.
pub open spec fn trimmed(c: Seq<char>) -> Seq<char> {
    let a = solid_from(c, 0);
    c.subrange(a, if a < c.len() { solid_until(c, c.len() as int) } else { a })
}

/// The bounds of `c` without its leading and trailing whitespace.
pub fn trim_bounds(c: &Vec<char>) -> (r: (usize, usize))
    ensures
        trimmed_as(c@, r.0 as int, r.1 as int),
        r.0 == solid_from(c@, 0),
        c@.subrange(r.0 as int, r.1 as int) == trimmed(c@),
{
    let n = c.len();
    let mut a: usize = 0;
    while a < n && is_white(c[a])
        invariant
            a <= n == c@.len(),
            forall|j: int| 0 <= j < a ==> is_white_spec(#[trigger] c@[j]),
            solid_from(c@, 0) == solid_from(c@, a as int),
        decreases n - a,
    {
        a += 1;
    }
    let mut b: usize = n;
    while b > a && is_white(c[b - 1])
        invariant
            a <= b <= n == c@.len(),
            a < n ==> !is_white_spec(c@[a as int]),
            a == solid_from(c@, 0),
            forall|j: int| b <= j < n ==> is_white_spec(#[trigger] c@[j]),
            a < n ==> solid_until(c@, n as int) == solid_until(c@, b as int),
            a == n ==> b == n,
        decreases b,
    {
        b -= 1;
    }
    (a, b)
}

} // verus!
