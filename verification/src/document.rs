//! Document model: the text as a sequence of characters, the (column, line)
//! coordinate walk over it, range extraction, and line/offset conversions.

use vstd::prelude::*;

verus! {

/// The smaller of two integers.
pub open spec fn imin(a: int, b: int) -> int {
    if a < b {
        a
    } else {
        b
    }
}

/// One step of the (column, line) walk: a line feed starts the next line,
/// any other character advances one column.
pub open spec fn step_pos(p: (int, int), c: char) -> (int, int) {
    if c == '\n' {
        (0, p.1 + 1)
    } else {
        (p.0 + 1, p.1)
    }
}

/// The (column, line) position just before the character at index `i`.
pub open spec fn walk_pos(t: Seq<char>, i: int) -> (int, int)
    decreases i,
{
    if i <= 0 {
        (0, 0)
    } else {
        step_pos(walk_pos(t, i - 1), t[i - 1])
    }
}

/// Position `p` is at or past coordinate `q` (column, line) in document order.
pub open spec fn pos_reaches(p: (int, int), q: (usize, usize)) -> bool {
    p.1 > q.1 || (p.1 == q.1 && p.0 >= q.0)
}

/// Position `p` is strictly past coordinate `q`.
pub open spec fn pos_past(p: (int, int), q: (usize, usize)) -> bool {
    p.1 > q.1 || (p.1 == q.1 && p.0 > q.0)
}

/// The walk at `p` has reached the extraction start (always, if none given).
pub open spec fn reached_start(p: (int, int), start: Option<(usize, usize)>) -> bool {
    match start {
        Option::None => true,
        Option::Some(sp) => pos_reaches(p, sp),
    }
}

/// The walk at `p` has passed the extraction end (never, if none given).
/// With `incl` the end boundary column itself is still included.
pub open spec fn passed_end(p: (int, int), end: Option<(usize, usize)>, incl: bool) -> bool {
    match end {
        Option::None => false,
        Option::Some(ep) => if incl {
            pos_past(p, ep)
        } else {
            pos_reaches(p, ep)
        },
    }
}

/// Whether the character at index `i` belongs to the extracted range.
pub open spec fn char_included(
    t: Seq<char>,
    i: int,
    start: Option<(usize, usize)>,
    end: Option<(usize, usize)>,
    incl: bool,
) -> bool {
    reached_start(walk_pos(t, i), start) && !passed_end(walk_pos(t, i), end, incl)
}

/// The extraction result restricted to the first `n` characters of the text.
pub open spec fn extract_upto(
    t: Seq<char>,
    start: Option<(usize, usize)>,
    end: Option<(usize, usize)>,
    incl: bool,
    n: int,
) -> Seq<char>
    decreases n,
{
    if n <= 0 {
        Seq::empty()
    } else {
        let rest = extract_upto(t, start, end, incl, n - 1);
        if char_included(t, n - 1, start, end, incl) {
            rest.push(t[n - 1])
        } else {
            rest
        }
    }
}

/// The characters of `t` whose running (column, line) position lies between
/// `start` and `end`; the single primitive under copy, cut, paste and delete.
pub open spec fn extract_spec(
    t: Seq<char>,
    start: Option<(usize, usize)>,
    end: Option<(usize, usize)>,
    incl: bool,
) -> Seq<char> {
    extract_upto(t, start, end, incl, t.len() as int)
}

/// Lexicographic order on positions, by line then column.
pub open spec fn lex_le(p: (int, int), q: (int, int)) -> bool {
    p.1 < q.1 || (p.1 == q.1 && p.0 <= q.0)
}

/// The walk only moves forward in document order.
pub proof fn lemma_walk_monotone(t: Seq<char>, i: int, j: int)
    requires
        0 <= i <= j,
    ensures
        lex_le(walk_pos(t, i), walk_pos(t, j)),
    decreases j - i,
{
    if i < j {
        lemma_walk_monotone(t, i, j - 1);
    }
}

/// Once the walk has passed the end coordinate it stays past it, so
/// extraction takes nothing beyond the first such index.
pub proof fn lemma_extract_stops(
    t: Seq<char>,
    start: Option<(usize, usize)>,
    end: Option<(usize, usize)>,
    incl: bool,
    i: int,
    n: int,
)
    requires
        0 <= i <= n,
        passed_end(walk_pos(t, i), end, incl),
    ensures
        extract_upto(t, start, end, incl, n) == extract_upto(t, start, end, incl, i),
    decreases n - i,
{
    if i < n {
        lemma_extract_stops(t, start, end, incl, i, n - 1);
        lemma_walk_monotone(t, i, n - 1);
    }
}

/// Before the walk has reached the start coordinate, extraction has taken
/// nothing.
pub proof fn lemma_extract_empty_before_start(
    t: Seq<char>,
    start: Option<(usize, usize)>,
    end: Option<(usize, usize)>,
    incl: bool,
    n: int,
)
    requires
        n > 0 ==> !reached_start(walk_pos(t, n - 1), start),
    ensures
        extract_upto(t, start, end, incl, n) == Seq::<char>::empty(),
    decreases n,
{
    if n > 0 {
        if n > 1 && reached_start(walk_pos(t, n - 2), start) {
            lemma_walk_monotone(t, n - 2, n - 1);
            assert(false);
        }
        lemma_extract_empty_before_start(t, start, end, incl, n - 1);
    }
}

/// Splitting at any coordinate loses nothing: the exclusive extraction up to
/// `c` followed by the extraction from `c` onward is the whole text.
pub proof fn lemma_partition_upto(t: Seq<char>, c: (usize, usize), n: int)
    requires
        0 <= n <= t.len(),
    ensures
        extract_upto(t, Option::None, Option::Some(c), false, n) + extract_upto(
            t,
            Option::Some(c),
            Option::None,
            false,
            n,
        ) =~= t.take(n),
    decreases n,
{
    if n > 0 {
        lemma_partition_upto(t, c, n - 1);
        let before = extract_upto(t, Option::None, Option::Some(c), false, n - 1);
        let after = extract_upto(t, Option::Some(c), Option::None, false, n - 1);
        if !pos_reaches(walk_pos(t, n - 1), c) {
            lemma_extract_empty_before_start(t, Option::Some(c), Option::None, false, n - 1);
            assert(after =~= Seq::<char>::empty());
        }
        assert(t.take(n) =~= t.take(n - 1).push(t[n - 1]));
    }
}

/// Law: for every text and every coordinate, range extraction is a lossless
/// partition of the text at that coordinate.
pub proof fn lemma_extract_partition(t: Seq<char>, c: (usize, usize))
    ensures
        extract_spec(t, Option::None, Option::Some(c), false) + extract_spec(
            t,
            Option::Some(c),
            Option::None,
            false,
        ) == t,
{
    lemma_partition_upto(t, c, t.len() as int);
    assert(t.take(t.len() as int) =~= t);
}

/// Walks the text once and collects the characters whose running position
/// lies inside the requested range.
pub fn extract_chars(
    text: &Vec<char>,
    start: Option<(usize, usize)>,
    end: Option<(usize, usize)>,
    incl: bool,
) -> (r: Vec<char>)
    ensures
        r@ == extract_spec(text@, start, end, incl),
{
    let mut s: Vec<char> = Vec::new();
    let mut x: usize = 0;
    let mut y: usize = 0;
    let mut i: usize = 0;

    while i < text.len()
        invariant
            i <= text@.len(),
            x <= i,
            y <= i,
            (x as int, y as int) == walk_pos(text@, i as int),
            s@ == extract_upto(text@, start, end, incl, i as int),
        decreases text@.len() - i,
    {
        let p_reached = match start {
            Option::None => true,
            Option::Some(sp) => y > sp.1 || (y == sp.1 && x >= sp.0),
        };
        let p_passed = match end {
            Option::None => false,
            Option::Some(ep) => if incl {
                y > ep.1 || (y == ep.1 && x > ep.0)
            } else {
                y > ep.1 || (y == ep.1 && x >= ep.0)
            },
        };

        if p_reached && p_passed {
            proof {
                lemma_extract_stops(text@, start, end, incl, i as int, text@.len() as int);
            }
            return s;
        }

        if p_reached {
            s.push(text[i]);
        }

        let c = text[i];
        if c == '\n' {
            x = 0;
            y = y + 1;
        } else {
            x = x + 1;
        }
        i = i + 1;
    }
    s
}

// ------------------------------------------------------------------
// Lines and offsets
// ------------------------------------------------------------------

/// Index of the first line feed at or after `from`, or the text length if
/// there is none.
pub open spec fn find_nl(t: Seq<char>, from: int) -> int
    decreases t.len() - from,
{
    if from >= t.len() {
        t.len() as int
    } else if t[from] == '\n' {
        from
    } else {
        find_nl(t, from + 1)
    }
}

/// Index of the first character of line `li`; lines are opened by the start
/// of the text and by every line feed.
pub open spec fn line_start(t: Seq<char>, li: int) -> int
    decreases li,
{
    if li <= 0 {
        0
    } else {
        let e = find_nl(t, line_start(t, li - 1));
        if e < t.len() {
            e + 1
        } else {
            t.len() as int
        }
    }
}

/// Number of characters on line `li`, the line feed excluded.
pub open spec fn line_len(t: Seq<char>, li: int) -> int {
    find_nl(t, line_start(t, li)) - line_start(t, li)
}

/// Number of line feeds among the first `n` characters.
pub open spec fn newline_count(t: Seq<char>, n: int) -> int
    decreases n,
{
    if n <= 0 {
        0
    } else {
        newline_count(t, n - 1) + if t[n - 1] == '\n' {
            1int
        } else {
            0int
        }
    }
}

/// Number of addressable lines: every line feed opens a following line, and
/// the empty text still has one line.
pub open spec fn total_lines(t: Seq<char>) -> int {
    newline_count(t, t.len() as int) + 1
}

/// The line a coordinate request clamps to.
pub open spec fn clamp_line(t: Seq<char>, line: int) -> int {
    imin(line, total_lines(t) - 1)
}

/// The column a coordinate request clamps to, on the clamped line.
pub open spec fn clamp_col(t: Seq<char>, line: int, col: int) -> int {
    imin(col, line_len(t, clamp_line(t, line)))
}

/// The character offset of a (clamped) coordinate.
pub open spec fn offset_of(t: Seq<char>, line: int, col: int) -> int {
    line_start(t, clamp_line(t, line)) + clamp_col(t, line, col)
}

/// `find_nl` stays within the text, lands on a line feed when it finds one,
/// and skips no line feed on the way.
pub proof fn lemma_find_nl_bounds(t: Seq<char>, from: int)
    requires
        0 <= from <= t.len(),
    ensures
        from <= find_nl(t, from) <= t.len(),
        find_nl(t, from) < t.len() ==> t[find_nl(t, from)] == '\n',
        forall|j: int| from <= j < find_nl(t, from) ==> t[j] != '\n',
    decreases t.len() - from,
{
    if from < t.len() && t[from] != '\n' {
        lemma_find_nl_bounds(t, from + 1);
    }
}

/// Searching from anywhere within a line-feed-free span finds the same line
/// feed.
pub proof fn lemma_find_nl_skip(t: Seq<char>, from: int, k: int)
    requires
        0 <= from <= k <= t.len(),
        forall|j: int| from <= j < k ==> t[j] != '\n',
    ensures
        find_nl(t, from) == find_nl(t, k),
    decreases k - from,
{
    if from < k {
        lemma_find_nl_skip(t, from + 1, k);
    }
}

/// The line component of the walk counts the line feeds passed so far.
pub proof fn lemma_walk_newline_count(t: Seq<char>, n: int)
    requires
        0 <= n,
    ensures
        walk_pos(t, n).1 == newline_count(t, n),
    decreases n,
{
    if n > 0 {
        lemma_walk_newline_count(t, n - 1);
    }
}

/// The walk position determines where its line starts: index `n` sits
/// `walk_pos(t, n).0` characters after the start of line `walk_pos(t, n).1`,
/// with no line feed in between.
pub proof fn lemma_walk_line_start(t: Seq<char>, n: int)
    requires
        0 <= n <= t.len(),
    ensures
        0 <= walk_pos(t, n).0 <= n,
        0 <= walk_pos(t, n).1,
        line_start(t, walk_pos(t, n).1) == n - walk_pos(t, n).0,
        forall|j: int| n - walk_pos(t, n).0 <= j < n ==> t[j] != '\n',
    decreases n,
{
    if n > 0 {
        lemma_walk_line_start(t, n - 1);
        let p = walk_pos(t, n - 1);
        if t[n - 1] == '\n' {
            lemma_find_nl_skip(t, n - 1 - p.0, n - 1);
            assert(find_nl(t, n - 1) == n - 1);
            assert(line_start(t, p.1 + 1) == n);
        }
    }
}

/// Stepping back by the column component of a walk position lands on the
/// start of its line.
pub proof fn lemma_walk_rewind(t: Seq<char>, n: int)
    requires
        0 <= n,
    ensures
        0 <= walk_pos(t, n).0 <= n,
        walk_pos(t, n - walk_pos(t, n).0) == (0int, walk_pos(t, n).1),
    decreases n,
{
    if n > 0 {
        lemma_walk_rewind(t, n - 1);
    }
}

/// A walk position never sits past the end of its line.
pub proof fn lemma_walk_within_line(t: Seq<char>, n: int)
    requires
        0 <= n <= t.len(),
    ensures
        walk_pos(t, n).0 <= line_len(t, walk_pos(t, n).1),
    decreases n,
{
    let p = walk_pos(t, n);
    lemma_walk_line_start(t, n);
    lemma_find_nl_skip(t, n - p.0, n);
    lemma_find_nl_bounds(t, n);
}

/// Line starts and line lengths stay within the text.
pub proof fn lemma_line_bounds(t: Seq<char>, li: int)
    ensures
        0 <= line_start(t, li) <= t.len(),
        0 <= line_len(t, li),
        line_start(t, li) + line_len(t, li) <= t.len(),
    decreases (if li > 0 { li } else { 0 }),
{
    if li > 0 {
        lemma_line_bounds(t, li - 1);
        lemma_find_nl_bounds(t, line_start(t, li - 1));
    }
    lemma_find_nl_bounds(t, line_start(t, li));
}

/// The line feed count over a prefix is at most the prefix length.
pub proof fn lemma_newline_count_bounds(t: Seq<char>, n: int)
    requires
        0 <= n,
    ensures
        0 <= newline_count(t, n) <= n,
    decreases n,
{
    if n > 0 {
        lemma_newline_count_bounds(t, n - 1);
    }
}

/// A line feed strictly before `n` keeps the count below the total.
pub proof fn lemma_count_le_newlines(t: Seq<char>, n: int, len: int)
    requires
        0 <= n <= len <= t.len(),
    ensures
        newline_count(t, n) <= newline_count(t, len),
    decreases len - n,
{
    if n < len {
        lemma_count_le_newlines(t, n + 1, len);
    }
}

/// The walk up to `i` depends only on the first `i` characters.
pub proof fn lemma_walk_prefix(t1: Seq<char>, t2: Seq<char>, i: int)
    requires
        0 <= i,
        forall|j: int| 0 <= j < i ==> t1[j] == t2[j],
    ensures
        walk_pos(t1, i) == walk_pos(t2, i),
    decreases i,
{
    if i > 0 {
        lemma_walk_prefix(t1, t2, i - 1);
    }
}

/// Converts a String to the character sequence the model works on.
pub fn chars_of_string(s: &String) -> (r: Vec<char>)
    ensures
        r@ == s@,
{
    let mut r: Vec<char> = Vec::new();
    let n = s.as_str().unicode_len();
    let mut i: usize = 0;
    while i < n
        invariant
            n == s@.len(),
            i <= n,
            r@ == s@.take(i as int),
        decreases n - i,
    {
        let c = s.as_str().get_char(i);
        r.push(c);
        proof {
            assert(r@ =~= s@.take(i + 1));
        }
        i = i + 1;
    }
    proof {
        assert(r@ =~= s@);
    }
    r
}

/// Relies on Iterator::collect for String: builds the string holding exactly
/// the characters of `v`, in order.
#[verifier::external_body]
pub fn string_from_chars(v: &Vec<char>) -> (s: String)
    ensures
        s@ == v@,
{
    v.iter().collect()
}

/// Locates the clamped coordinate (`col`, `line`) in the text with a single
/// walk, returning the clamped column, the clamped line and the character
/// offset of that coordinate.
pub fn locate(text: &Vec<char>, col: usize, line: usize) -> (r: (usize, usize, usize))
    ensures
        r.1 == clamp_line(text@, line as int),
        r.0 == clamp_col(text@, line as int, col as int),
        r.2 == offset_of(text@, line as int, col as int),
        r.2 <= text@.len(),
        r.0 <= r.2,
        (r.0 as int, r.1 as int) == walk_pos(text@, r.2 as int),
{
    let mut i: usize = 0;
    let mut x: usize = 0;
    let mut y: usize = 0;

    // Walk to the start of the target line, or to the end of the text if the
    // target line lies beyond it.
    while y < line && i < text.len()
        invariant
            i <= text@.len(),
            x <= i,
            y <= line,
            y == line ==> x == 0,
            (x as int, y as int) == walk_pos(text@, i as int),
        decreases text@.len() - i,
    {
        if text[i] == '\n' {
            x = 0;
            y = y + 1;
        } else {
            x = x + 1;
        }
        i = i + 1;
    }

    proof {
        lemma_walk_newline_count(text@, text@.len() as int);
        lemma_walk_newline_count(text@, i as int);
        lemma_walk_monotone(text@, i as int, text@.len() as int);
        lemma_walk_line_start(text@, i as int);
        lemma_walk_rewind(text@, i as int);
        if y < line {
            // Ran out of text: y is the number of line feeds in the whole
            // text, so the last line is line y.
            assert(i == text@.len());
            assert(y as int == total_lines(text@) - 1);
        } else {
            assert(y == line);
        }
        assert(line_start(text@, y as int) == i - x);
        assert(walk_pos(text@, i - x) == (0int, y as int));
    }

    // Rewind to the start of the line the walk ended on.
    i = i - x;
    x = 0;

    let target_y = y;

    // Advance along the line to the requested column, stopping at the line
    // feed or the end of the text.
    while x < col && i < text.len() && text[i] != '\n'
        invariant
            i <= text@.len(),
            x <= i,
            i as int == line_start(text@, target_y as int) + x,
            x <= col,
            y == target_y,
            (x as int, y as int) == walk_pos(text@, i as int),
            forall|j: int| line_start(text@, target_y as int) <= j < i ==> text@[j] != '\n',
        decreases text@.len() - i,
    {
        x = x + 1;
        i = i + 1;
    }

    proof {
        lemma_find_nl_skip(text@, line_start(text@, target_y as int), i as int);
        lemma_find_nl_bounds(text@, i as int);
        if x < col {
            // Stopped on a line feed or at the end: the column clamps to the
            // line length.
            assert(find_nl(text@, i as int) == i);
            assert(x as int == line_len(text@, target_y as int));
        } else {
            assert(x == col);
            assert(find_nl(text@, i as int) >= i);
            assert(x as int <= line_len(text@, target_y as int));
        }
    }

    (x, y, i)
}

/// The (column, line) coordinate of a character offset.
pub fn coord_at(text: &Vec<char>, off: usize) -> (r: (usize, usize))
    requires
        off <= text@.len(),
    ensures
        (r.0 as int, r.1 as int) == walk_pos(text@, off as int),
        r.0 <= line_len(text@, r.1 as int),
        r.1 < total_lines(text@),
{
    let mut i: usize = 0;
    let mut x: usize = 0;
    let mut y: usize = 0;
    while i < off
        invariant
            i <= off <= text@.len(),
            x <= i,
            y <= i,
            (x as int, y as int) == walk_pos(text@, i as int),
        decreases off - i,
    {
        if text[i] == '\n' {
            x = 0;
            y = y + 1;
        } else {
            x = x + 1;
        }
        i = i + 1;
    }
    proof {
        lemma_walk_within_line(text@, off as int);
        lemma_walk_newline_count(text@, off as int);
        lemma_walk_newline_count(text@, text@.len() as int);
        lemma_walk_monotone(text@, off as int, text@.len() as int);
    }
    (x, y)
}

} // verus!
