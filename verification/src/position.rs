use crate::text::{byte_len, char_len_utf8, char_width, str_chars};
use vstd::prelude::*;

verus! {

/// Where the lines of `s` begin, in bytes: 0, then one past each `'\n'`.
pub open spec fn line_starts(s: Seq<char>) -> Seq<int>
    decreases s.len(),
{
    if s.len() == 0 {
        seq![0]
    } else {
        let r = line_starts(s.drop_last());
        if s.last() == '\n' {
            r.push(byte_len(s) as int)
        } else {
            r
        }
    }
}

/// The first line, from `p` on, whose start (cut to `u32`) lies past `offset`.
pub open spec fn first_line_after(starts: Seq<int>, offset: u32, p: int) -> Option<int>
    decreases starts.len() - p,
{
    if p < 0 || p >= starts.len() {
        None
    } else if (starts[p] as u32) > offset {
        Some(p)
    } else {
        first_line_after(starts, offset, p + 1)
    }
}

/// The line of `offset`: the number of the first line that starts past it, or the number of the
/// last line if none does; and the column: `offset` less the start of the line before that.
pub open spec fn line_column(starts: Seq<int>, offset: u32) -> (u32, u32) {
    let line = match first_line_after(starts, offset, 0) {
        Some(p) => p,
        None => starts.len() - 1,
    };
    (line as u32, (offset - (starts[line - 1] as u32)) as u32)
}

/// The span lies within the source's chars and does not run backwards.
pub open spec fn span_in(s: Seq<char>, start: u32, end: u32) -> bool {
    &&& s.len() <= u32::MAX
    &&& start < s.len()
    &&& end <= s.len()
    &&& start <= end
}

proof fn lemma_byte_len_bound(s: Seq<char>)
    ensures
        byte_len(s) <= 4 * s.len(),
    decreases s.len(),
{
    if s.len() > 0 {
        lemma_byte_len_bound(s.drop_last());
    }
}

proof fn lemma_line_starts_len(s: Seq<char>)
    ensures
        1 <= line_starts(s).len() <= s.len() + 1,
        line_starts(s)[0] == 0,
    decreases s.len(),
{
    if s.len() > 0 {
        lemma_line_starts_len(s.drop_last());
    }
}

proof fn lemma_first_line_after(starts: Seq<int>, offset: u32, p: int)
    requires
        0 <= p <= starts.len(),
    ensures
        first_line_after(starts, offset, p) matches Some(q) ==> p <= q < starts.len() && (
        starts[q] as u32) > offset && forall|r: int| p <= r < q ==> !((starts[r] as u32)
            > offset),
        first_line_after(starts, offset, p) is None ==> forall|r: int|
            p <= r < starts.len() ==> !((starts[r] as u32) > offset),
    decreases starts.len() - p,
{
    if p < starts.len() && !((starts[p] as u32) > offset) {
        lemma_first_line_after(starts, offset, p + 1);
    }
}

/// The line and column of `offset`, where lines begin at `starts` (at least two of them, the
/// first at 0).
fn calc_line_column(starts: &Vec<u64>, offset: u32) -> (r: (u32, u32))
    requires
        2 <= starts@.len() <= u32::MAX + 1,
        starts@[0] == 0,
    ensures
        r == line_column(starts@.map_values(|o: u64| o as int), offset),
{
    let ghost ss = starts@.map_values(|o: u64| o as int);
    let mut p: usize = 0;
    proof {
        lemma_first_line_after(ss, offset, 0);
    }
    while p < starts.len() && !((starts[p] as u32) > offset)
        invariant
            p <= starts@.len(),
            ss == starts@.map_values(|o: u64| o as int),
            first_line_after(ss, offset, 0) == first_line_after(ss, offset, p as int),
        decreases starts@.len() - p,
    {
        assert(ss[p as int] == starts@[p as int] as int);
        assert((ss[p as int] as u32) == (starts@[p as int] as u32));
        p = p + 1;
    }
    let line = if p < starts.len() {
        assert(ss[p as int] == starts@[p as int] as int);
        p
    } else {
        starts.len() - 1
    };
    proof {
        lemma_first_line_after(ss, offset, 0);
        assert(line >= 1) by {
            if line == 0 {
                assert(ss[0] == 0);
                assert((ss[0] as u32) == 0);
            }
        }
        assert(ss[line - 1] == starts@[line - 1] as int);
        assert((ss[line - 1] as u32) == (starts@[line - 1] as u32));
        assert(!((ss[line - 1] as u32) > offset));
    }
    let column = offset - starts[line - 1] as u32;
    (line as u32, column)
}

/// The lines and columns of the start and the end of `span`, a range of char positions of
/// `source`; `None` where the source has more chars than `u32` counts, or the span lies outside
/// it or runs backwards. Lines start at 0 and one byte past each `'\n'`, and positions are
/// compared with them as they are.
pub fn get_line_column_range(source: &str, span: core::ops::Range<u32>) -> (r: Option<
    ((u32, u32), (u32, u32)),
>)
    requires
        span_in(source@, span.start, span.end) ==> line_starts(source@).len() >= 2,
    ensures
        r == if span_in(source@, span.start, span.end) {
            Some(
                (
                    line_column(line_starts(source@), span.start),
                    line_column(line_starts(source@), span.end),
                ),
            )
        } else {
            None
        },
{
    let chars = str_chars(source);
    if chars.len() > u32::MAX as usize {
        return None;
    }
    let source_len = chars.len() as u32;
    if span.start >= source_len || span.end > source_len || span.start > span.end {
        return None;
    }
    let mut starts: Vec<u64> = vec![0];
    let mut offset: u64 = 0;
    let mut k: usize = 0;
    proof {
        lemma_byte_len_bound(chars@);
        assert(chars@.take(0) =~= Seq::<char>::empty());
        assert(starts@.map_values(|o: u64| o as int) =~= line_starts(chars@.take(0)));
    }
    while k < chars.len()
        invariant
            k <= chars@.len(),
            chars@.len() <= u32::MAX,
            offset == byte_len(chars@.take(k as int)),
            starts@.map_values(|o: u64| o as int) == line_starts(chars@.take(k as int)),
        decreases chars@.len() - k,
    {
        let c = chars[k];
        let ghost t = chars@.take(k + 1);
        proof {
            assert(t.drop_last() =~= chars@.take(k as int));
            assert(t.last() == c);
            lemma_byte_len_bound(t);
        }
        offset = offset + char_len_utf8(c) as u64;
        if c == '\n' {
            let ghost before = starts@;
            starts.push(offset);
            proof {
                assert(starts@.map_values(|o: u64| o as int) =~= before.map_values(
                    |o: u64| o as int,
                ).push(offset as int));
            }
        }
        k = k + 1;
    }
    proof {
        assert(chars@.take(chars@.len() as int) =~= chars@);
        lemma_line_starts_len(chars@);
    }
    let start = calc_line_column(&starts, span.start);
    let end = calc_line_column(&starts, span.end);
    Some((start, end))
}

} // verus!
