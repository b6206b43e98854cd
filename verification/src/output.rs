//! Renderings of answers for a terminal: aligned tables, one-line clips,
//! short durations and relative times.
use vstd::prelude::*;

use crate::text::{
    chars_of, decimal, decimal_text, owned, push_char, push_chars, push_str, replace_char, replaced,
    slice_chars, string_of, trim, trim_bounds, trim_end, trimmed_end,
};
use crate::time::in_calendar;

verus! {

/// The upper case of `s` as `str::to_uppercase` writes it, by the Unicode
/// case tables.
pub uninterp spec fn upper_case(s: Seq<char>) -> Seq<char>;

/// `str::to_uppercase`: the text in upper case. Which characters that gives
/// is left to the Unicode tables the standard library carries.
#[verifier::external_body]
fn to_upper(s: &str) -> (r: String)
    ensures
        r@ == upper_case(s@),
{
    s.to_uppercase()
}

/// `n` spaces.
pub open spec fn spaces(n: nat) -> Seq<char> {
    Seq::new(n, |i: int| ' ')
}

/// A cell padded to `width` characters and two more, unless it is the last
/// of its line.
pub open spec fn padded(cell: Seq<char>, width: nat, last: bool) -> Seq<char> {
    if last {
        cell
    } else {
        cell + spaces((if width >= cell.len() {
            width - cell.len()
        } else {
            0
        }) as nat + 2)
    }
}

/// Pads a cell to a column's width, leaving the last cell of a line alone.
pub fn pad(cell: &str, width: usize, last: bool) -> (r: String)
    requires
        width + 2 <= usize::MAX,
    ensures
        r@ == padded(cell@, width as nat, last),
{
    if last {
        return owned(cell);
    }
    let n = chars_of(cell).len();
    let gap: usize = if width >= n {
        width - n
    } else {
        0
    };
    let mut out = owned(cell);
    let mut i: usize = 0;
    let total = gap + 2;
    let ghost start = out@;
    while i < total
        invariant
            total == gap + 2,
            i <= total,
            out@ == start + spaces(i as nat),
        decreases total - i,
    {
        push_char(&mut out, ' ');
        i += 1;
        assert(out@ =~= start + spaces(i as nat));
    }
    out
}

/// The widest cell in column `i` of `rows`, 0 when no row reaches it.
pub open spec fn rows_width(rows: Seq<Seq<Seq<char>>>, i: int) -> nat
    decreases rows.len(),
{
    if rows.len() == 0 {
        0
    } else {
        let rest = rows_width(rows.drop_last(), i);
        let here: nat = if 0 <= i < rows.last().len() {
            rows.last()[i].len()
        } else {
            0
        };
        if here > rest {
            here
        } else {
            rest
        }
    }
}

proof fn lemma_rows_width_bounded(rows: Seq<Seq<Seq<char>>>, i: int, b: int)
    requires
        forall|r: int, j: int|
            0 <= r < rows.len() && 0 <= j < rows[r].len() ==> (#[trigger] rows[r][j]).len() <= b,
        0 <= b,
    ensures
        rows_width(rows, i) <= b,
    decreases rows.len(),
{
    if rows.len() > 0 {
        let d = rows.drop_last();
        assert forall|r: int, j: int| 0 <= r < d.len() && 0 <= j < d[r].len() implies (
        #[trigger] d[r][j]).len() <= b by {
            assert(d[r] == rows[r]);
        }
        lemma_rows_width_bounded(d, i, b);
        if 0 <= i < rows.last().len() {
            assert(rows[rows.len() - 1][i].len() <= b);
        }
    }
}

/// The width of column `i`: its header or its widest cell.
pub open spec fn column_width(headers: Seq<Seq<char>>, rows: Seq<Seq<Seq<char>>>, i: int) -> nat {
    let h = headers[i].len();
    let w = rows_width(rows, i);
    if h > w {
        h
    } else {
        w
    }
}

/// The first `k` cells of a line, padded; `last_at` is the number of cells
/// the line has, so the cell at `last_at - 1` is left unpadded.
pub open spec fn line_cells(cells: Seq<Seq<char>>, widths: Seq<nat>, last_at: int, k: int) -> Seq<
    char,
>
    decreases k,
{
    if k <= 0 {
        Seq::empty()
    } else {
        line_cells(cells, widths, last_at, k - 1) + padded(cells[k - 1], widths[k - 1], k == last_at)
    }
}

/// One line of a row: its cells that fall under a column.
pub open spec fn row_line(row: Seq<Seq<char>>, widths: Seq<nat>) -> Seq<char> {
    let k = if row.len() < widths.len() {
        row.len()
    } else {
        widths.len()
    };
    line_cells(row, widths, row.len() as int, k as int) + seq!['\n']
}

/// The lines of the first `k` rows.
pub open spec fn rows_lines(rows: Seq<Seq<Seq<char>>>, widths: Seq<nat>, k: int) -> Seq<char>
    decreases k,
{
    if k <= 0 {
        Seq::empty()
    } else {
        rows_lines(rows, widths, k - 1) + row_line(rows[k - 1], widths)
    }
}

/// The views of a list of strings.
pub open spec fn string_views(v: Seq<String>) -> Seq<Seq<char>> {
    v.map_values(|s: String| s@)
}

/// The views of a list of rows.
pub open spec fn row_views(rows: Seq<Vec<String>>) -> Seq<Seq<Seq<char>>> {
    rows.map_values(|r: Vec<String>| string_views(r@))
}

/// The table `table` renders: headers in upper case, every column as wide as
/// its widest entry plus two spaces, trailing white space dropped; nothing at
/// all for no rows.
pub open spec fn table_text(headers: Seq<Seq<char>>, rows: Seq<Seq<Seq<char>>>) -> Seq<char> {
    if rows.len() == 0 {
        Seq::empty()
    } else {
        let widths = Seq::new(headers.len(), |i: int| column_width(headers, rows, i));
        let uppers = headers.map_values(|h: Seq<char>| upper_case(h));
        trim_end(
            line_cells(uppers, widths, headers.len() as int, headers.len() as int) + seq!['\n']
                + rows_lines(rows, widths, rows.len() as int),
        )
    }
}

/// The views of a list of string slices.
pub open spec fn str_views(v: Seq<&str>) -> Seq<Seq<char>> {
    v.map_values(|s: &str| s@)
}

/// The number of characters of a string.
fn char_count(s: &str) -> (r: usize)
    ensures
        r == s@.len(),
{
    chars_of(s).len()
}

/// Renders rows as an aligned table.
pub fn table(headers: &[&str], rows: &[Vec<String>]) -> (r: String)
    requires
        forall|i: int| 0 <= i < headers@.len() ==> (#[trigger] headers@[i])@.len() + 2 <= usize::MAX,
        forall|i: int, j: int|
            0 <= i < rows@.len() && 0 <= j < rows@[i]@.len() ==> (#[trigger] rows@[i]@[j])@.len() + 2
                <= usize::MAX,
    ensures
        r@ == table_text(str_views(headers@), row_views(rows@)),
{
    if rows.len() == 0 {
        return String::new();
    }
    let ghost hs = str_views(headers@);
    let ghost rs = row_views(rows@);
    let mut widths: Vec<usize> = Vec::new();
    let mut i: usize = 0;
    while i < headers.len()
        invariant
            hs == str_views(headers@),
            i <= headers@.len(),
            widths@.len() == i,
            forall|k: int| 0 <= k < i ==> widths@[k] == hs[k].len(),
        decreases headers@.len() - i,
    {
        widths.push(char_count(headers[i]));
        i += 1;
    }
    let mut r: usize = 0;
    while r < rows.len()
        invariant
            hs == str_views(headers@),
            rs == row_views(rows@),
            r <= rows@.len(),
            widths@.len() == headers@.len(),
            forall|k: int|
                0 <= k < widths@.len() ==> #[trigger] widths@[k] == column_width(
                    hs,
                    rs.take(r as int),
                    k,
                ),
        decreases rows@.len() - r,
    {
        let row = &rows[r];
        let ghost before = widths@;
        let mut c: usize = 0;
        assert(rs.take(r + 1).drop_last() =~= rs.take(r as int));
        assert(rs.take(r + 1).last() == string_views(row@));
        while c < row.len()
            invariant
                hs == str_views(headers@),
                rs == row_views(rows@),
                rs.take(r + 1).drop_last() == rs.take(r as int),
                rs.take(r + 1).last() == string_views(row@),
                r < rows@.len(),
                *row == rows@[r as int],
                c <= row@.len(),
                widths@.len() == headers@.len(),
                before.len() == widths@.len(),
                forall|k: int|
                    0 <= k < widths@.len() ==> #[trigger] before[k] == column_width(
                        hs,
                        rs.take(r as int),
                        k,
                    ),
                forall|k: int|
                    0 <= k < widths@.len() ==> #[trigger] widths@[k] == if k < c {
                        column_width(hs, rs.take(r + 1), k)
                    } else {
                        before[k] as nat
                    },
            decreases row@.len() - c,
        {
            if c < widths.len() {
                let n = char_count(row[c].as_str());
                let w = widths[c];
                widths.set(c, if n > w { n } else { w });
                proof {
                    assert(rs.take(r + 1).last()[c as int] == row@[c as int]@);
                    assert(widths@[c as int] == column_width(hs, rs.take(r + 1), c as int));
                }
            }
            c += 1;
        }
        proof {
            assert forall|k: int| 0 <= k < widths@.len() implies #[trigger] widths@[k]
                == column_width(hs, rs.take(r + 1), k) by {
                if k >= c {
                    assert(k >= string_views(row@).len());
                }
            }
        }
        r += 1;
    }
    assert(rs.take(rows@.len() as int) =~= rs);
    let ghost ws = Seq::new(hs.len(), |k: int| column_width(hs, rs, k));
    let ghost uppers = hs.map_values(|h: Seq<char>| upper_case(h));
    assert(widths@.len() == ws.len());
    proof {
        let b = usize::MAX - 2;
        assert forall|r: int, j: int| 0 <= r < rs.len() && 0 <= j < rs[r].len() implies (
        #[trigger] rs[r][j]).len() <= b by {
            assert(rs[r][j] == rows@[r]@[j]@);
        }
        assert forall|j: int| 0 <= j < ws.len() implies #[trigger] ws[j] + 2 <= usize::MAX by {
            lemma_rows_width_bounded(rs, j, b);
            assert(hs[j] == headers@[j]@);
        }
    }
    let mut out = String::new();
    let mut k: usize = 0;
    while k < headers.len()
        invariant
            hs == str_views(headers@),
            rs == row_views(rows@),
            ws == Seq::new(hs.len(), |k: int| column_width(hs, rs, k)),
            uppers == hs.map_values(|h: Seq<char>| upper_case(h)),
            forall|j: int| 0 <= j < ws.len() ==> #[trigger] ws[j] + 2 <= usize::MAX,
            widths@.len() == headers@.len(),
            forall|j: int| 0 <= j < widths@.len() ==> #[trigger] widths@[j] == ws[j],
            k <= headers@.len(),
            out@ == line_cells(uppers, ws, headers@.len() as int, k as int),
        decreases headers@.len() - k,
    {
        let up = to_upper(headers[k]);
        assert(uppers[k as int] == upper_case(headers@[k as int]@));
        assert(widths@[k as int] == ws[k as int]);
        let cell = pad(up.as_str(), widths[k], k + 1 == headers.len());
        push_str(&mut out, cell.as_str());
        k += 1;
    }
    let ghost first = out@;
    push_char(&mut out, '\n');
    let ghost head = out@;
    assert(head =~= first + seq!['\n']);
    assert(rows_lines(rs, ws, 0) =~= Seq::<char>::empty());
    assert(head + rows_lines(rs, ws, 0) =~= head);
    let mut r: usize = 0;
    while r < rows.len()
        invariant
            hs == str_views(headers@),
            rs == row_views(rows@),
            ws == Seq::new(hs.len(), |k: int| column_width(hs, rs, k)),
            forall|j: int| 0 <= j < ws.len() ==> #[trigger] ws[j] + 2 <= usize::MAX,
            widths@.len() == headers@.len(),
            forall|j: int| 0 <= j < widths@.len() ==> #[trigger] widths@[j] == ws[j],
            r <= rows@.len(),
            out@ == head + rows_lines(rs, ws, r as int),
        decreases rows@.len() - r,
    {
        let row = &rows[r];
        let ghost cells = rs[r as int];
        assert(cells == string_views(row@));
        let ghost before = out@;
        let limit = if row.len() < widths.len() {
            row.len()
        } else {
            widths.len()
        };
        let mut c: usize = 0;
        while c < limit
            invariant
                widths@.len() == headers@.len(),
                ws.len() == widths@.len(),
                forall|j: int| 0 <= j < ws.len() ==> #[trigger] ws[j] + 2 <= usize::MAX,
                forall|j: int| 0 <= j < widths@.len() ==> #[trigger] widths@[j] == ws[j],
                *row == rows@[r as int],
                cells == string_views(row@),
                limit <= row@.len(),
                limit <= widths@.len(),
                c <= limit,
                out@ == before + line_cells(cells, ws, row@.len() as int, c as int),
            decreases limit - c,
        {
            assert(cells[c as int] == row@[c as int]@);
            assert(widths@[c as int] == ws[c as int]);
            let cell = pad(row[c].as_str(), widths[c], c + 1 == row.len());
            push_str(&mut out, cell.as_str());
            c += 1;
        }
        let ghost mid = out@;
        push_char(&mut out, '\n');
        assert(out@ =~= mid + seq!['\n']);
        assert(rows_lines(rs, ws, r + 1) == rows_lines(rs, ws, r as int) + row_line(rs[r as int], ws));
        assert(out@ =~= head + rows_lines(rs, ws, r + 1));
        r += 1;
    }
    assert(out@ == first + seq!['\n'] + rows_lines(rs, ws, rows@.len() as int));
    let all = chars_of(out.as_str());
    let kept = trimmed_end(all.as_slice());
    string_of(kept.as_slice())
}

/// What `clip` makes of `text`: line breaks flattened to spaces, the ends
/// trimmed, and at most `max` characters, the last one an ellipsis when
/// something was cut.
pub open spec fn clipped_text(text: Seq<char>, max: nat) -> Seq<char> {
    let flat = trim(replace_char(replace_char(text, '\n', ' '), '\r', ' '));
    if flat.len() <= max {
        flat
    } else {
        flat.take(if max >= 1 { max - 1 } else { 0 }) + seq!['…']
    }
}

/// Shortens a value to one readable line.
pub fn clip(text: &str, max: usize) -> (r: String)
    ensures
        r@ == clipped_text(text@, max as nat),
{
    let chars = chars_of(text);
    let a = replaced(chars.as_slice(), '\n', ' ');
    let b = replaced(a.as_slice(), '\r', ' ');
    let (lo, hi) = trim_bounds(b.as_slice());
    let flat = slice_chars(b.as_slice(), lo, hi);
    if flat.len() <= max {
        return string_of(flat.as_slice());
    }
    let keep = if max >= 1 { max - 1 } else { 0 };
    let head = slice_chars(flat.as_slice(), 0, keep);
    assert(head@ == flat@.take(keep as int));
    let mut out = string_of(head.as_slice());
    push_char(&mut out, '…');
    out
}

/// A span of seconds in its largest whole unit: `45s`, `3m`, `5h`, `2d`.
pub open spec fn duration_text(seconds: int) -> Seq<char> {
    if seconds < 60 {
        crate::text::signed_decimal(seconds) + seq!['s']
    } else if seconds < 3_600 {
        decimal((seconds / 60) as nat) + seq!['m']
    } else if seconds < 86_400 {
        decimal((seconds / 3_600) as nat) + seq!['h']
    } else {
        decimal((seconds / 86_400) as nat) + seq!['d']
    }
}

pub fn duration(seconds: i64) -> (r: String)
    ensures
        r@ == duration_text(seconds as int),
{
    if seconds < 60 {
        let mut m = crate::text::signed_decimal_text(seconds);
        push_char(&mut m, 's');
        m
    } else if seconds < 3_600 {
        let mut m = decimal_text((seconds / 60) as u64);
        push_char(&mut m, 'm');
        m
    } else if seconds < 86_400 {
        let mut m = decimal_text((seconds / 3_600) as u64);
        push_char(&mut m, 'h');
        m
    } else {
        let mut m = decimal_text((seconds / 86_400) as u64);
        push_char(&mut m, 'd');
        m
    }
}

/// How long ago `then` was at `now`, in words.
pub open spec fn ago_text(then: int, now: int) -> Seq<char> {
    let seconds = now - then;
    if seconds < 0 {
        "in "@ + duration_text(-seconds)
    } else if seconds < 5 {
        "just now"@
    } else {
        duration_text(seconds) + " ago"@
    }
}

/// "3m ago", "2h ago": relative times read faster than timestamps in a list.
/// Instants are seconds since 1970-01-01T00:00:00Z.
pub fn ago(then: i64, now: i64) -> (r: String)
    requires
        in_calendar(then as int),
        in_calendar(now as int),
    ensures
        r@ == ago_text(then as int, now as int),
{
    let seconds = now - then;
    if seconds < 0 {
        let mut m = owned("in ");
        let d = duration(-seconds);
        push_str(&mut m, d.as_str());
        return m;
    }
    if seconds < 5 {
        return owned("just now");
    }
    let mut m = duration(seconds);
    push_str(&mut m, " ago");
    m
}

} // verus!
