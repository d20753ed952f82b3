//! Reading serial data: its lines, the text frequency formats, MIDI note
//! messages and the capped history log.
//!
//! Text follows Rust's `str::lines` (a line ends at `\n`, and a `\r` just
//! before that `\n` is dropped) and `str::trim` (which removes characters with
//! the Unicode `White_Space` property from both ends).

use vstd::prelude::*;
use vstd::string::StrSliceExecFns;

use crate::protocol::detected_payload;

verus! {

// ---------------------------------------------------------------------------
// Characters and lines

/// The Unicode `White_Space` property, as `char::is_whitespace` tests it.
pub open spec fn white_space(c: char) -> bool {
    let x = c as u32;
    ||| 0x09 <= x <= 0x0d
    ||| x == 0x20
    ||| x == 0x85
    ||| x == 0xa0
    ||| x == 0x1680
    ||| 0x2000 <= x <= 0x200a
    ||| x == 0x2028
    ||| x == 0x2029
    ||| x == 0x202f
    ||| x == 0x205f
    ||| x == 0x3000
}

/// Whether `c` has the Unicode `White_Space` property.
pub fn is_white_space(c: char) -> (r: bool)
    ensures
        r == white_space(c),
{
    let x = c as u32;
    (0x09 <= x && x <= 0x0d) || x == 0x20 || x == 0x85 || x == 0xa0 || x == 0x1680 || (0x2000 <= x
        && x <= 0x200a) || x == 0x2028 || x == 0x2029 || x == 0x202f || x == 0x205f || x == 0x3000
}

/// A line without the `\r` that preceded its `\n`.
pub open spec fn strip_cr(line: Seq<char>) -> Seq<char> {
    if line.len() > 0 && line.last() == '\r' {
        line.drop_last()
    } else {
        line
    }
}

/// The lines of `s` when the line being read so far is `cur`.
pub open spec fn lines_from(s: Seq<char>, cur: Seq<char>) -> Seq<Seq<char>>
    decreases s.len(),
{
    if s.len() == 0 {
        if cur.len() == 0 {
            seq![]
        } else {
            seq![cur]
        }
    } else if s[0] == '\n' {
        seq![strip_cr(cur)] + lines_from(s.drop_first(), seq![])
    } else {
        lines_from(s.drop_first(), cur.push(s[0]))
    }
}

/// The lines of a text, as `str::lines` yields them.
pub open spec fn text_lines(s: Seq<char>) -> Seq<Seq<char>> {
    lines_from(s, seq![])
}

/// `s` without its leading white space.
pub open spec fn trim_start(s: Seq<char>) -> Seq<char>
    decreases s.len(),
{
    if s.len() > 0 && white_space(s[0]) {
        trim_start(s.drop_first())
    } else {
        s
    }
}

/// `s` without its trailing white space.
pub open spec fn trim_end(s: Seq<char>) -> Seq<char>
    decreases s.len(),
{
    if s.len() > 0 && white_space(s.last()) {
        trim_end(s.drop_last())
    } else {
        s
    }
}

/// `s` without white space at either end, as `str::trim` returns it.
pub open spec fn trim(s: Seq<char>) -> Seq<char> {
    trim_end(trim_start(s))
}

/// Index of the first `c` in `s`, or `s.len()` when there is none.
pub open spec fn index_of(s: Seq<char>, c: char) -> int
    decreases s.len(),
{
    if s.len() == 0 {
        0
    } else if s[0] == c {
        0
    } else {
        1 + index_of(s.drop_first(), c)
    }
}

/// The characters of a string slice, in order.
pub fn chars_of(text: &str) -> (cs: Vec<char>)
    ensures
        cs@ == text@,
{
    let mut cs: Vec<char> = Vec::new();
    for c in it: text.chars()
        invariant
            cs@ == it.seq().take(it.index() as int),
    {
        cs.push(c);
    }
    cs
}

/// A range `[start, end)` of character positions.
pub open spec fn range_of(s: Seq<char>, r: (usize, usize)) -> Seq<char> {
    s.subrange(r.0 as int, r.1 as int)
}

pub open spec fn valid_range(s: Seq<char>, r: (usize, usize)) -> bool {
    r.0 <= r.1 <= s.len()
}

proof fn lemma_lines_step(s: Seq<char>, i: int, start: int)
    requires
        0 <= start <= i < s.len(),
    ensures
        s[i] == '\n' ==> lines_from(s.skip(i), s.subrange(start, i)) == seq![
            strip_cr(s.subrange(start, i)),
        ] + lines_from(s.skip(i + 1), s.subrange(i + 1, i + 1)),
        s[i] != '\n' ==> lines_from(s.skip(i), s.subrange(start, i)) == lines_from(
            s.skip(i + 1),
            s.subrange(start, i + 1),
        ),
{
    assert(s.skip(i).drop_first() =~= s.skip(i + 1));
    assert(s.skip(i)[0] == s[i]);
    assert(s.subrange(start, i).push(s[i]) =~= s.subrange(start, i + 1));
    assert(s.subrange(i + 1, i + 1) =~= Seq::<char>::empty());
}

/// Ranges of the lines of `cs`, in order (see `text_lines`).
fn line_ranges(cs: &Vec<char>) -> (out: Vec<(usize, usize)>)
    ensures
        out@.len() == text_lines(cs@).len(),
        forall|k: int|
            0 <= k < out@.len() ==> valid_range(cs@, #[trigger] out@[k]) && range_of(cs@, out@[k])
                == text_lines(cs@)[k],
{
    let n = cs.len();
    let mut out: Vec<(usize, usize)> = Vec::new();
    let ghost mut done: Seq<Seq<char>> = seq![];
    let mut start: usize = 0;
    let mut i: usize = 0;
    assert(cs@.skip(0) =~= cs@);
    assert(cs@.subrange(0, 0) =~= Seq::<char>::empty());
    while i < n
        invariant
            n == cs@.len(),
            0 <= start <= i <= n,
            out@.len() == done.len(),
            forall|k: int|
                0 <= k < out@.len() ==> valid_range(cs@, #[trigger] out@[k]) && range_of(
                    cs@,
                    out@[k],
                ) == done[k],
            text_lines(cs@) == done + lines_from(cs@.skip(i as int), cs@.subrange(start as int, i as int)),
        decreases n - i,
    {
        proof {
            lemma_lines_step(cs@, i as int, start as int);
        }
        if cs[i] == '\n' {
            let end: usize = if i > start && cs[i - 1] == '\r' {
                i - 1
            } else {
                i
            };
            proof {
                let cur = cs@.subrange(start as int, i as int);
                assert(range_of(cs@, (start, end)) =~= strip_cr(cur));
                assert(done + lines_from(cs@.skip(i as int), cur) =~= done.push(strip_cr(cur))
                    + lines_from(cs@.skip(i + 1), cs@.subrange(i + 1, i + 1)));
                done = done.push(strip_cr(cur));
            }
            out.push((start, end));
            start = i + 1;
        }
        i = i + 1;
    }
    proof {
        assert(cs@.skip(n as int) =~= Seq::<char>::empty());
    }
    if start < n {
        proof {
            assert(done + seq![cs@.subrange(start as int, n as int)] =~= done.push(
                cs@.subrange(start as int, n as int),
            ));
            done = done.push(cs@.subrange(start as int, n as int));
        }
        out.push((start, n));
    } else {
        assert(done + Seq::<Seq<char>>::empty() =~= done);
    }
    out
}

// ---------------------------------------------------------------------------
// Trimming and the text frequency formats

proof fn lemma_trim_start_step(s: Seq<char>, a: int, b: int)
    requires
        0 <= a < b <= s.len(),
        white_space(s[a]),
    ensures
        trim_start(s.subrange(a, b)) == trim_start(s.subrange(a + 1, b)),
{
    assert(s.subrange(a, b).drop_first() =~= s.subrange(a + 1, b));
}

proof fn lemma_trim_end_step(s: Seq<char>, a: int, b: int)
    requires
        0 <= a < b <= s.len(),
        white_space(s[b - 1]),
    ensures
        trim_end(s.subrange(a, b)) == trim_end(s.subrange(a, b - 1)),
{
    assert(s.subrange(a, b).drop_last() =~= s.subrange(a, b - 1));
}

/// The range of the line `[a, b)` without white space at either end.
fn trim_range(cs: &Vec<char>, a: usize, b: usize) -> (r: (usize, usize))
    requires
        a <= b <= cs@.len(),
    ensures
        a <= r.0 <= r.1 <= b,
        range_of(cs@, r) == trim(cs@.subrange(a as int, b as int)),
{
    let mut lo: usize = a;
    while lo < b && is_white_space(cs[lo])
        invariant
            a <= lo <= b <= cs@.len(),
            trim_start(cs@.subrange(a as int, b as int)) == trim_start(cs@.subrange(lo as int, b as int)),
        decreases b - lo,
    {
        proof {
            lemma_trim_start_step(cs@, lo as int, b as int);
        }
        lo = lo + 1;
    }
    assert(trim_start(cs@.subrange(lo as int, b as int)) == cs@.subrange(lo as int, b as int));
    let mut hi: usize = b;
    while hi > lo && is_white_space(cs[hi - 1])
        invariant
            a <= lo <= hi <= b <= cs@.len(),
            trim(cs@.subrange(a as int, b as int)) == trim_end(cs@.subrange(lo as int, hi as int)),
        decreases hi - lo,
    {
        proof {
            lemma_trim_end_step(cs@, lo as int, hi as int);
        }
        hi = hi - 1;
    }
    (lo, hi)
}

/// `t` begins with `p`.
pub open spec fn starts_with(t: Seq<char>, p: Seq<char>) -> bool {
    t.len() >= p.len() && t.take(p.len() as int) == p
}

/// The second `:`-separated part of `rest`, if it has one.
pub open spec fn second_part(rest: Seq<char>) -> Option<Seq<char>> {
    let k = index_of(rest, ':');
    if k >= rest.len() {
        None
    } else {
        let tail = rest.skip(k + 1);
        Some(tail.take(index_of(tail, ':')))
    }
}

/// The frequency text of a trimmed line: what follows `F:`, or the part after
/// the note name in `NOTE:<name>:<frequency>`.
pub open spec fn trimmed_field(t: Seq<char>) -> Option<Seq<char>> {
    if starts_with(t, seq!['F', ':']) {
        Some(t.skip(2))
    } else if starts_with(t, seq!['N', 'O', 'T', 'E', ':']) {
        second_part(t.skip(5))
    } else {
        None
    }
}

/// The frequency text that a line carries, if any.
pub open spec fn frequency_field(line: Seq<char>) -> Option<Seq<char>> {
    trimmed_field(trim(line))
}

/// The frequency texts of the lines, in order.
pub open spec fn fields_of(lines: Seq<Seq<char>>) -> Seq<Seq<char>>
    decreases lines.len(),
{
    if lines.len() == 0 {
        seq![]
    } else {
        let prev = fields_of(lines.drop_last());
        match frequency_field(lines.last()) {
            Some(f) => prev.push(f),
            None => prev,
        }
    }
}

/// Each line that carries a field adds exactly that field after the fields of
/// the lines before it; a line without one adds nothing.
pub proof fn lemma_fields_append(lines: Seq<Seq<char>>, line: Seq<char>)
    ensures
        frequency_field(line) matches Some(f) ==> fields_of(lines.push(line)) == fields_of(lines).push(f),
        frequency_field(line) is None ==> fields_of(lines.push(line)) == fields_of(lines),
{
    assert(lines.push(line).drop_last() =~= lines);
}

/// The fields of two runs of lines are the fields of the first run followed
/// by those of the second, however many lines either holds.
pub proof fn lemma_fields_concat(a: Seq<Seq<char>>, b: Seq<Seq<char>>)
    ensures
        fields_of(a + b) == fields_of(a) + fields_of(b),
    decreases b.len(),
{
    if b.len() == 0 {
        assert(a + b =~= a);
        assert(fields_of(a) + fields_of(b) =~= fields_of(a));
    } else {
        let b0 = b.drop_last();
        lemma_fields_concat(a, b0);
        assert((a + b).drop_last() =~= a + b0);
        assert((a + b).last() == b.last());
        match frequency_field(b.last()) {
            Some(f) => {
                assert(fields_of(a) + fields_of(b) =~= (fields_of(a) + fields_of(b0)).push(f));
            },
            None => {},
        }
    }
}

/// A line `F:<x>` carries `x` whenever `x` neither starts nor ends with white space.
pub proof fn lemma_f_line_carries_text(x: Seq<char>)
    requires
        x.len() > 0 ==> !white_space(x[0]) && !white_space(x.last()),
    ensures
        frequency_field(seq!['F', ':'] + x) == Some(x),
{
    let line = seq!['F', ':'] + x;
    assert(line[0] == 'F');
    assert(!white_space('F'));
    assert(trim_start(line) == line);
    assert(line.last() == if x.len() > 0 { x.last() } else { ':' });
    assert(!white_space(':'));
    assert(trim_end(line) == line);
    assert(line.take(2) =~= seq!['F', ':']);
    assert(line.skip(2) =~= x);
}

/// A line `NOTE:<name>:<x>` carries `x` whenever the name holds no `:` and
/// does not start with white space, and `x` holds no `:` and does not end with
/// white space.
pub proof fn lemma_note_line_carries_text(name: Seq<char>, x: Seq<char>)
    requires
        !name.contains(':'),
        !x.contains(':'),
        name.len() > 0 ==> !white_space(name[0]),
        x.len() > 0 ==> !white_space(x.last()),
    ensures
        frequency_field(seq!['N', 'O', 'T', 'E', ':'] + name + seq![':'] + x) == Some(x),
{
    let line = seq!['N', 'O', 'T', 'E', ':'] + name + seq![':'] + x;
    assert(line[0] == 'N');
    assert(trim_start(line) == line);
    assert(line.last() == if x.len() > 0 { x.last() } else { ':' });
    assert(!white_space(':'));
    assert(trim_end(line) == line);
    assert(!starts_with(line, seq!['F', ':'])) by {
        assert(line.take(2)[0] == 'N');
    }
    assert(line.take(5) =~= seq!['N', 'O', 'T', 'E', ':']);
    let rest = line.skip(5);
    assert(rest =~= name + seq![':'] + x);
    assert(rest =~= name + (seq![':'] + x));
    assert((seq![':'] + x)[0] == ':');
    lemma_index_of_prefix(name, seq![':'] + x, ':');
    assert(index_of(rest, ':') == name.len());
    let tail = rest.skip(name.len() + 1int);
    assert(tail =~= x);
    lemma_index_of_absent(x, ':');
    assert(tail.take(index_of(tail, ':')) =~= x);
}

proof fn lemma_index_of_absent(s: Seq<char>, c: char)
    requires
        !s.contains(c),
    ensures
        index_of(s, c) == s.len(),
    decreases s.len(),
{
    if s.len() > 0 {
        assert(s[0] != c) by {
            assert(s.contains(s[0]));
        }
        assert forall|m: int| 0 <= m < s.drop_first().len() implies s.drop_first()[m] != c by {
            assert(s.drop_first()[m] == s[m + 1]);
            if s[m + 1] == c {
                assert(s.contains(c));
            }
        }
        lemma_index_of_absent(s.drop_first(), c);
    }
}

proof fn lemma_index_of_prefix(a: Seq<char>, b: Seq<char>, c: char)
    requires
        !a.contains(c),
        b.len() > 0,
        b[0] == c,
    ensures
        index_of(a + b, c) == a.len(),
    decreases a.len(),
{
    if a.len() > 0 {
        assert(a[0] != c) by {
            assert(a.contains(a[0]));
        }
        assert((a + b).drop_first() =~= a.drop_first() + b);
        assert(!a.drop_first().contains(c)) by {
            if a.drop_first().contains(c) {
                let m = choose|m: int| 0 <= m < a.drop_first().len() && a.drop_first()[m] == c;
                assert(a[m + 1] == c);
                assert(a.contains(c));
            }
        }
        lemma_index_of_prefix(a.drop_first(), b, c);
    } else {
        assert(a + b =~= b);
    }
}

/// The frequency texts of all lines of a text.
pub open spec fn text_fields(s: Seq<char>) -> Seq<Seq<char>> {
    fields_of(text_lines(s))
}

proof fn lemma_index_of_scan(s: Seq<char>, c: char, a: int, j: int, b: int)
    requires
        0 <= a <= j <= b <= s.len(),
        forall|m: int| a <= m < j ==> s[m] != c,
        j == b || s[j] == c,
    ensures
        index_of(s.subrange(a, b), c) == j - a,
    decreases j - a,
{
    if a < j {
        assert(s.subrange(a, b).drop_first() =~= s.subrange(a + 1, b));
        lemma_index_of_scan(s, c, a + 1, j, b);
    }
}

/// First position of `c` in `[a, b)`, or `b`.
fn scan_for(cs: &Vec<char>, c: char, a: usize, b: usize) -> (j: usize)
    requires
        a <= b <= cs@.len(),
    ensures
        a <= j <= b,
        index_of(cs@.subrange(a as int, b as int), c) == j - a,
{
    let mut j: usize = a;
    while j < b && cs[j] != c
        invariant
            a <= j <= b <= cs@.len(),
            forall|m: int| a <= m < j ==> cs@[m] != c,
        decreases b - j,
    {
        j = j + 1;
    }
    proof {
        lemma_index_of_scan(cs@, c, a as int, j as int, b as int);
    }
    j
}

/// Range of the frequency text of the trimmed line `[lo, hi)`.
fn field_range(cs: &Vec<char>, lo: usize, hi: usize) -> (r: Option<(usize, usize)>)
    requires
        lo <= hi <= cs@.len(),
    ensures
        r matches Some(x) ==> valid_range(cs@, x) && trimmed_field(cs@.subrange(lo as int, hi as int))
            == Some(range_of(cs@, x)),
        r is None ==> trimmed_field(cs@.subrange(lo as int, hi as int)) is None,
{
    let ghost t = cs@.subrange(lo as int, hi as int);
    if hi - lo >= 2 && cs[lo] == 'F' && cs[lo + 1] == ':' {
        assert(t.take(2) =~= seq!['F', ':']);
        assert(t.skip(2) =~= cs@.subrange(lo + 2, hi as int));
        return Some((lo + 2, hi));
    }
    assert(!starts_with(t, seq!['F', ':'])) by {
        if t.len() >= 2 && t.take(2) == seq!['F', ':'] {
            assert(t.take(2)[0] == cs@[lo as int] && t.take(2)[1] == cs@[lo + 1]);
        }
    }
    if hi - lo >= 5 && cs[lo] == 'N' && cs[lo + 1] == 'O' && cs[lo + 2] == 'T' && cs[lo + 3] == 'E'
        && cs[lo + 4] == ':' {
        assert(t.take(5) =~= seq!['N', 'O', 'T', 'E', ':']);
        let ghost rest = t.skip(5);
        assert(rest =~= cs@.subrange(lo + 5, hi as int));
        let k = scan_for(cs, ':', lo + 5, hi);
        if k >= hi {
            return None;
        }
        let k2 = scan_for(cs, ':', k + 1, hi);
        proof {
            assert(rest.skip(k - lo - 5 + 1) =~= cs@.subrange(k + 1, hi as int));
            let tail = rest.skip(k - lo - 5 + 1);
            assert(tail.take(k2 - k - 1) =~= cs@.subrange(k + 1, k2 as int));
        }
        return Some((k + 1, k2));
    }
    assert(!starts_with(t, seq!['N', 'O', 'T', 'E', ':'])) by {
        if t.len() >= 5 && t.take(5) == seq!['N', 'O', 'T', 'E', ':'] {
            assert(t.take(5)[0] == cs@[lo as int] && t.take(5)[1] == cs@[lo + 1] && t.take(5)[2]
                == cs@[lo + 2] && t.take(5)[3] == cs@[lo + 3] && t.take(5)[4] == cs@[lo + 4]);
        }
    }
    None
}

/// The views of a list of strings.
pub open spec fn views(v: Seq<String>) -> Seq<Seq<char>> {
    v.map_values(|s: String| s@)
}

/// The frequency texts that the lines of serial text carry, in order: for each
/// line, trimmed, the text after `F:`, or the text between the second and a
/// third `:` of `NOTE:<name>:<frequency>`. Lines of other forms carry none.
pub fn frequency_fields(text: &str) -> (fields: Vec<String>)
    ensures
        views(fields@) == text_fields(text@),
{
    let cs = chars_of(text);
    let lines = line_ranges(&cs);
    let mut fields: Vec<String> = Vec::new();
    let mut k: usize = 0;
    while k < lines.len()
        invariant
            cs@ == text@,
            lines@.len() == text_lines(cs@).len(),
            forall|m: int|
                0 <= m < lines@.len() ==> valid_range(cs@, #[trigger] lines@[m]) && range_of(
                    cs@,
                    lines@[m],
                ) == text_lines(cs@)[m],
            0 <= k <= lines@.len(),
            views(fields@) == fields_of(text_lines(cs@).take(k as int)),
        decreases lines@.len() - k,
    {
        let (a, b) = lines[k];
        let (lo, hi) = trim_range(&cs, a, b);
        let f = field_range(&cs, lo, hi);
        let ghost ls = text_lines(cs@);
        assert(ls.take(k + 1).drop_last() =~= ls.take(k as int));
        assert(ls.take(k + 1).last() == ls[k as int]);
        match f {
            Some((x, y)) => {
                let piece = String::from_str(text.substring_char(x, y));
                fields.push(piece);
                assert(views(fields@) =~= fields_of(ls.take(k as int)).push(range_of(cs@, (x, y))));
            },
            None => {},
        }
        k = k + 1;
    }
    assert(text_lines(cs@).take(lines@.len() as int) =~= text_lines(cs@));
    fields
}

/// The non-empty lines, in order.
pub open spec fn nonempty_lines(lines: Seq<Seq<char>>) -> Seq<Seq<char>>
    decreases lines.len(),
{
    if lines.len() == 0 {
        seq![]
    } else {
        let prev = nonempty_lines(lines.drop_last());
        if lines.last().len() > 0 {
            prev.push(lines.last())
        } else {
            prev
        }
    }
}

/// The history lines of two runs of lines are those of the first run
/// followed by those of the second: every non-empty line is kept, in order.
pub proof fn lemma_nonempty_lines_concat(a: Seq<Seq<char>>, b: Seq<Seq<char>>)
    ensures
        nonempty_lines(a + b) == nonempty_lines(a) + nonempty_lines(b),
    decreases b.len(),
{
    if b.len() == 0 {
        assert(a + b =~= a);
        assert(nonempty_lines(a) + nonempty_lines(b) =~= nonempty_lines(a));
    } else {
        let b0 = b.drop_last();
        lemma_nonempty_lines_concat(a, b0);
        assert((a + b).drop_last() =~= a + b0);
        assert((a + b).last() == b.last());
        if b.last().len() > 0 {
            assert(nonempty_lines(a) + nonempty_lines(b) =~= (nonempty_lines(a) + nonempty_lines(
                b0,
            )).push(b.last()));
        }
    }
}

/// The non-empty lines of serial text, in order: what the history log records.
pub fn history_lines(text: &str) -> (lines: Vec<String>)
    ensures
        views(lines@) == nonempty_lines(text_lines(text@)),
{
    let cs = chars_of(text);
    let ranges = line_ranges(&cs);
    let mut lines: Vec<String> = Vec::new();
    let mut k: usize = 0;
    while k < ranges.len()
        invariant
            cs@ == text@,
            ranges@.len() == text_lines(cs@).len(),
            forall|m: int|
                0 <= m < ranges@.len() ==> valid_range(cs@, #[trigger] ranges@[m]) && range_of(
                    cs@,
                    ranges@[m],
                ) == text_lines(cs@)[m],
            0 <= k <= ranges@.len(),
            views(lines@) == nonempty_lines(text_lines(cs@).take(k as int)),
        decreases ranges@.len() - k,
    {
        let (a, b) = ranges[k];
        let ghost ls = text_lines(cs@);
        assert(ls.take(k + 1).drop_last() =~= ls.take(k as int));
        assert(ls.take(k + 1).last() == ls[k as int]);
        if a < b {
            let piece = String::from_str(text.substring_char(a, b));
            lines.push(piece);
            assert(views(lines@) =~= nonempty_lines(ls.take(k as int)).push(range_of(cs@, (a, b))));
        }
        k = k + 1;
    }
    assert(text_lines(cs@).take(ranges@.len() as int) =~= text_lines(cs@));
    lines
}

// ---------------------------------------------------------------------------
// MIDI note messages

/// A MIDI channel message: its channel (the low nibble of the status byte)
/// and the note number that follows the status byte.
#[derive(Debug, Clone, Copy, PartialEq, Eq, Structural)]
pub struct MidiNote {
    pub channel: u8,
    pub note: u8,
}

/// The MIDI note message that serial data holds: at least three bytes, the
/// first a channel status byte (0x80 to 0xEF).
pub open spec fn midi_message(data: Seq<u8>) -> Option<MidiNote> {
    if data.len() >= 3 && 0x80 <= data[0] < 0xF0 {
        Some(MidiNote { channel: (data[0] % 16) as u8, note: data[1] })
    } else {
        None
    }
}

/// Reads a MIDI channel message from the start of serial data.
pub fn midi_note(data: &[u8]) -> (r: Option<MidiNote>)
    ensures
        r == midi_message(data@),
{
    if data.len() >= 3 {
        let status = data[0];
        if status >= 0x80 && status < 0xF0 {
            let channel = status & 0x0F;
            assert(status & 0x0F == status % 16) by (bit_vector);
            return Some(MidiNote { channel, note: data[1] });
        }
    }
    None
}

/// A MIDI channel number fits in the low nibble.
pub proof fn lemma_midi_channel_range(data: Seq<u8>)
    ensures
        midi_message(data) matches Some(m) ==> m.channel < 16,
{
}

/// Only a channel status byte (0x80 to 0xEF) followed by two more bytes starts
/// a note message; data bytes and system bytes (0xF0 to 0xFF) never do. A
/// message's status byte is 0x80 + 16·kind + channel, and its note is the
/// byte after the status byte.
pub proof fn lemma_midi_status_bytes(data: Seq<u8>)
    ensures
        midi_message(data) is Some ==> data.len() >= 3 && 0x80 <= data[0] && data[0] < 0xF0,
        data.len() > 0 && data[0] >= 0xF0 ==> midi_message(data) is None,
        data.len() > 0 && data[0] < 0x80 ==> midi_message(data) is None,
        data.len() < 3 ==> midi_message(data) is None,
        data.len() >= 3 && 0x80 <= data[0] && data[0] < 0xF0 ==> (midi_message(data) matches Some(m)
            && m.note == data[1] && m.channel < 16 && (data[0] - m.channel) % 16 == 0),
{
}

/// What follows the first three bytes does not change the message found.
pub proof fn lemma_midi_ignores_rest(data: Seq<u8>, rest: Seq<u8>)
    requires
        data.len() >= 3,
    ensures
        midi_message(data + rest) == midi_message(data),
{
    assert((data + rest)[0] == data[0] && (data + rest)[1] == data[1]);
}

// ---------------------------------------------------------------------------
// History log

/// The history log keeps at most this many entries.
pub const HISTORY_CAP: usize = 5000;

/// The newest `HISTORY_CAP` entries of a log.
pub open spec fn capped(log: Seq<String>) -> Seq<String> {
    if log.len() > HISTORY_CAP {
        log.skip(log.len() - HISTORY_CAP)
    } else {
        log
    }
}

/// Appends an entry to the history log, then drops the oldest entries beyond
/// `HISTORY_CAP`.
pub fn push_history(history: &mut Vec<String>, entry: String)
    ensures
        final(history)@ == capped(old(history)@.push(entry)),
{
    history.push(entry);
    if history.len() > HISTORY_CAP {
        let excess = history.len() - HISTORY_CAP;
        let kept = history.split_off(excess);
        *history = kept;
    }
}

/// The log never grows past its cap, and the newest entry is always last.
pub proof fn lemma_history_bounded(log: Seq<String>, entry: String)
    requires
        log.len() <= HISTORY_CAP,
    ensures
        capped(log.push(entry)).len() <= HISTORY_CAP,
        capped(log.push(entry)).last() == entry,
        log.len() < HISTORY_CAP ==> capped(log.push(entry)) == log.push(entry),
        log.len() == HISTORY_CAP ==> capped(log.push(entry)) == log.skip(1).push(entry),
{
    if log.len() == HISTORY_CAP {
        assert(log.push(entry).skip(1) =~= log.skip(1).push(entry));
    }
}

// ---------------------------------------------------------------------------
// Laws of the line reader

proof fn lemma_lines_from_no_newline(s: Seq<char>, cur: Seq<char>)
    requires
        forall|m: int| 0 <= m < cur.len() ==> cur[m] != '\n',
    ensures
        forall|k: int, m: int|
            0 <= k < lines_from(s, cur).len() && 0 <= m < lines_from(s, cur)[k].len()
                ==> #[trigger] lines_from(s, cur)[k][m] != '\n',
    decreases s.len(),
{
    let r = lines_from(s, cur);
    if s.len() == 0 {
        assert forall|k: int, m: int| 0 <= k < r.len() && 0 <= m < r[k].len() implies #[trigger] r[k][m]
            != '\n' by {
            assert(r[k] == cur);
        }
    } else if s[0] == '\n' {
        lemma_lines_from_no_newline(s.drop_first(), seq![]);
        let first = strip_cr(cur);
        let rest = lines_from(s.drop_first(), seq![]);
        assert(r == seq![first] + rest);
        assert forall|k: int, m: int| 0 <= k < r.len() && 0 <= m < r[k].len() implies #[trigger] r[k][m]
            != '\n' by {
            if k == 0 {
                assert(r[k] == first);
                assert(first[m] == cur[m]);
            } else {
                assert(r[k] == rest[k - 1]);
            }
        }
    } else {
        let next = cur.push(s[0]);
        assert forall|m: int| 0 <= m < next.len() implies next[m] != '\n' by {
            if m < cur.len() {
                assert(next[m] == cur[m]);
            }
        }
        lemma_lines_from_no_newline(s.drop_first(), next);
        assert(r == lines_from(s.drop_first(), next));
    }
}

proof fn lemma_lines_from_first(line: Seq<char>, rest: Seq<char>, cur: Seq<char>)
    requires
        !line.contains('\n'),
    ensures
        lines_from(line + seq!['\n'] + rest, cur) == seq![strip_cr(cur + line)] + lines_from(rest, seq![]),
    decreases line.len(),
{
    let s = line + seq!['\n'] + rest;
    if line.len() == 0 {
        assert(s =~= seq!['\n'] + rest);
        assert(s.drop_first() =~= rest);
        assert(cur + line =~= cur);
    } else {
        assert(line[0] != '\n') by {
            assert(line.contains(line[0]));
        }
        assert(!line.drop_first().contains('\n')) by {
            if line.drop_first().contains('\n') {
                let m = choose|m: int| 0 <= m < line.drop_first().len() && line.drop_first()[m] == '\n';
                assert(line[m + 1] == '\n');
                assert(line.contains('\n'));
            }
        }
        assert(s.drop_first() =~= line.drop_first() + seq!['\n'] + rest);
        assert(s[0] == line[0]);
        lemma_lines_from_first(line.drop_first(), rest, cur.push(line[0]));
        assert(cur.push(line[0]) + line.drop_first() =~= cur + line);
    }
}

/// A line ended by `\n` is the first line of the text, without the `\r`
/// that may precede the `\n`; the lines of what follows come after it.
pub proof fn lemma_first_line(line: Seq<char>, rest: Seq<char>)
    requires
        !line.contains('\n'),
    ensures
        text_lines(line + seq!['\n'] + rest) == seq![strip_cr(line)] + text_lines(rest),
{
    lemma_lines_from_first(line, rest, seq![]);
    assert(Seq::<char>::empty() + line =~= line);
}

proof fn lemma_lines_from_last(line: Seq<char>, cur: Seq<char>)
    requires
        !line.contains('\n'),
    ensures
        lines_from(line, cur) == if (cur + line).len() == 0 {
            Seq::<Seq<char>>::empty()
        } else {
            seq![cur + line]
        },
    decreases line.len(),
{
    if line.len() == 0 {
        assert(cur + line =~= cur);
    } else {
        assert(line[0] != '\n') by {
            assert(line.contains(line[0]));
        }
        assert(!line.drop_first().contains('\n')) by {
            if line.drop_first().contains('\n') {
                let m = choose|m: int| 0 <= m < line.drop_first().len() && line.drop_first()[m] == '\n';
                assert(line[m + 1] == '\n');
                assert(line.contains('\n'));
            }
        }
        lemma_lines_from_last(line.drop_first(), cur.push(line[0]));
        assert(cur.push(line[0]) + line.drop_first() =~= cur + line);
    }
}

/// Text without a line feed is one line as it stands (a `\r` at its end
/// stays), or no line at all when empty.
pub proof fn lemma_last_line(line: Seq<char>)
    requires
        !line.contains('\n'),
    ensures
        line.len() > 0 ==> text_lines(line) == seq![line],
        line.len() == 0 ==> text_lines(line).len() == 0,
{
    lemma_lines_from_last(line, seq![]);
    assert(Seq::<char>::empty() + line =~= line);
}

/// No line of a text holds a line feed.
pub proof fn lemma_lines_have_no_newline(s: Seq<char>)
    ensures
        forall|k: int, m: int|
            0 <= k < text_lines(s).len() && 0 <= m < text_lines(s)[k].len()
                ==> #[trigger] text_lines(s)[k][m] != '\n',
{
    lemma_lines_from_no_newline(s, seq![]);
}

/// The history log never records an empty line.
pub proof fn lemma_history_lines_nonempty(lines: Seq<Seq<char>>)
    ensures
        forall|k: int| 0 <= k < nonempty_lines(lines).len() ==> #[trigger] nonempty_lines(lines)[k].len() > 0,
    decreases lines.len(),
{
    if lines.len() > 0 {
        lemma_history_lines_nonempty(lines.drop_last());
        let prev = nonempty_lines(lines.drop_last());
        assert forall|k: int| 0 <= k < nonempty_lines(lines).len() implies #[trigger] nonempty_lines(
            lines,
        )[k].len() > 0 by {
            if k < prev.len() {
                assert(nonempty_lines(lines)[k] == prev[k]);
            }
        }
    }
}


// ---------------------------------------------------------------------------
// Serial reader

/// What one read from the serial port gave.
#[derive(Debug, Clone, Copy, PartialEq, Eq, Structural)]
pub enum ReadOutcome {
    /// This many bytes were read; zero means the port closed.
    Bytes(usize),
    /// The read failed.
    Failed,
}

/// What the serial reader does next.
#[derive(Debug, Clone, Copy, PartialEq, Eq, Structural)]
pub enum ReaderAction {
    /// Hand the first this many bytes of the buffer to the multiplexer, and read on.
    Process(usize),
    /// Wait this many milliseconds, then read again.
    RetryAfterMillis(u64),
    /// Stop reading: the port closed.
    Stop,
}

/// Milliseconds the reader waits after a failed read.
pub const READ_RETRY_DELAY_MS: u64 = 100;

/// The serial reader's answer to a read: stop when the port closed, process
/// what was read, or wait and retry after an error.
pub fn reader_step(outcome: ReadOutcome) -> (action: ReaderAction)
    ensures
        action == (match outcome {
            ReadOutcome::Bytes(0) => ReaderAction::Stop,
            ReadOutcome::Bytes(n) => ReaderAction::Process(n),
            ReadOutcome::Failed => ReaderAction::RetryAfterMillis(READ_RETRY_DELAY_MS),
        }),
{
    match outcome {
        ReadOutcome::Bytes(0) => ReaderAction::Stop,
        ReadOutcome::Bytes(n) => ReaderAction::Process(n),
        ReadOutcome::Failed => ReaderAction::RetryAfterMillis(READ_RETRY_DELAY_MS),
    }
}


// ---------------------------------------------------------------------------
// Order of detection

/// The frequency inputs that serial data yields besides a framed message.
#[derive(Debug, Clone, PartialEq, Eq)]
pub struct DetectedInputs {
    /// Frequency texts of the text lines, in order.
    pub fields: Vec<String>,
    /// The MIDI note message the data starts with, if any.
    pub midi: Option<MidiNote>,
}

/// What serial data yields besides a framed consonance message. A frame that
/// decoded into a message is all the data carries: then neither its text nor
/// a MIDI message is read. Otherwise both are read, the text lines first.
/// `text` is the data read as text.
pub fn detected_inputs(data: &[u8], text: &str, frame_decoded: bool) -> (r: DetectedInputs)
    requires
        frame_decoded ==> detected_payload(data@) is Some,
    ensures
        frame_decoded ==> r.fields@.len() == 0 && r.midi is None,
        !frame_decoded ==> views(r.fields@) == text_fields(text@) && r.midi == midi_message(data@),
{
    if frame_decoded {
        DetectedInputs { fields: Vec::new(), midi: None }
    } else {
        DetectedInputs { fields: frequency_fields(text), midi: midi_note(data) }
    }
}

} // verus!
