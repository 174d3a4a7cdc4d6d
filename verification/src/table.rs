use vstd::prelude::*;
use vstd::utf8::{
    decode_utf8, encode_utf8, encode_utf8_decode_utf8, encode_utf8_valid_utf8, is_char_boundary,
    valid_utf8,
};

use unicode_width::UnicodeWidthStr;

use crate::text::{center, max_nat, push_center, push_repeat, repeat_char};

verus! {

/// The number of terminal columns that `UnicodeWidthStr::width` gives for a text.
pub uninterp spec fn str_width(s: Seq<char>) -> usize;

/// Calls `UnicodeWidthStr::width` of the `unicode-width` crate, which sums the
/// display widths (per Unicode Annex #11) of the characters of `s`. The contract
/// claims only that the result is determined by the characters of `s`.
#[verifier::external_body]
fn unicode_width_of(s: &str) -> (w: usize)
    ensures
        w == str_width(s@),
{
    UnicodeWidthStr::width(s)
}

/// The number of terminal columns the text `s` takes.
pub fn display_width(s: &str) -> (w: usize)
    ensures
        w == str_width(s@),
{
    unicode_width_of(s)
}

/// No column is wider than this; longer cells are cut.
pub open spec fn max_item_width() -> nat {
    20
}

/// Why a table cannot be drawn.
#[derive(Debug, Clone, Copy, PartialEq, Eq, Structural)]
pub enum TabError {
    /// The table has no columns.
    EmptyHeader,
    /// Row number `row` (counted from 0) has `found` cells, the header `expected`.
    RowLength { row: usize, found: usize, expected: usize },
}

/// The first row, from row `from` on, that does not have `n` cells.
pub open spec fn first_mismatch(n: nat, data: Seq<Seq<Seq<char>>>, from: nat) -> Option<nat>
    decreases data.len() - from,
{
    if from >= data.len() {
        None
    } else if data[from as int].len() != n {
        Some(from)
    } else {
        first_mismatch(n, data, from + 1)
    }
}

/// Whether the table has a header and every row has one cell per column,
/// or else the first thing wrong with it.
pub open spec fn tab_check(header: Seq<Seq<char>>, data: Seq<Seq<Seq<char>>>) -> Result<(), TabError> {
    if header.len() == 0 {
        Err(TabError::EmptyHeader)
    } else {
        match first_mismatch(header.len(), data, 0) {
            Some(k) => Err(
                TabError::RowLength {
                    row: k as usize,
                    found: data[k as int].len() as usize,
                    expected: header.len() as usize,
                },
            ),
            None => Ok(()),
        }
    }
}

/// The widest text of column `i` among the header and the first `k` rows.
pub open spec fn widest(header: Seq<Seq<char>>, data: Seq<Seq<Seq<char>>>, i: int, k: nat) -> nat
    decreases k,
{
    if k == 0 {
        str_width(header[i]) as nat
    } else {
        max_nat(widest(header, data, i, (k - 1) as nat), str_width(data[k - 1][i]) as nat)
    }
}

/// The width of column `i`: its widest text, but at most `max_item_width()`.
pub open spec fn column_width(header: Seq<Seq<char>>, data: Seq<Seq<Seq<char>>>, i: int) -> nat {
    let w = widest(header, data, i, data.len());
    if w > max_item_width() {
        max_item_width()
    } else {
        w
    }
}

/// The widths of all columns.
pub open spec fn column_widths(header: Seq<Seq<char>>, data: Seq<Seq<Seq<char>>>) -> Seq<usize> {
    Seq::new(header.len(), |i: int| column_width(header, data, i) as usize)
}

/// Whether every row has one cell per column of the header.
pub open spec fn rows_match(header: Seq<Seq<char>>, data: Seq<Seq<Seq<char>>>) -> bool {
    forall|k: int| 0 <= k < data.len() ==> #[trigger] data[k].len() == header.len()
}

/// Checks that the table has a header and that every row has one cell per column.
pub fn check_tab(header: &Vec<String>, data: &Vec<Vec<String>>) -> (r: Result<(), TabError>)
    ensures
        r == tab_check(header.deep_view(), data.deep_view()),
        r is Ok <==> header@.len() > 0 && rows_match(header.deep_view(), data.deep_view()),
{
    let ghost h = header.deep_view();
    let ghost d = data.deep_view();
    let n = header.len();
    if n == 0 {
        return Err(TabError::EmptyHeader);
    }
    assert(h.len() == n);
    let mut i: usize = 0;
    while i < data.len()
        invariant
            i <= data.len(),
            n == header.len(),
            h.len() == n,
            n > 0,
            h == header.deep_view(),
            d == data.deep_view(),
            forall|j: int| 0 <= j < i ==> #[trigger] d[j].len() == n,
            first_mismatch(n as nat, d, 0) == first_mismatch(n as nat, d, i as nat),
        decreases data.len() - i,
    {
        assert(d[i as int].len() == data@[i as int]@.len());
        if data[i].len() != n {
            proof {
                assert(!rows_match(h, d));
                assert(first_mismatch(n as nat, d, i as nat) == Some(i as nat));
                assert(first_mismatch(h.len(), d, 0) == Some(i as nat));
            }
            let found = data[i].len();
            assert(found == d[i as int].len());
            let r = Err(TabError::RowLength { row: i, found, expected: n });
            assert(r == tab_check(h, d));
            return r;
        }
        assert(first_mismatch(n as nat, d, i as nat) == first_mismatch(n as nat, d, (i + 1) as nat));
        i = i + 1;
    }
    assert(first_mismatch(n as nat, d, i as nat) == None::<nat>);
    assert(rows_match(h, d));
    Ok(())
}

/// The widths of the columns of a table whose rows all match its header.
fn compute_widths(header: &Vec<String>, data: &Vec<Vec<String>>) -> (r: Vec<usize>)
    requires
        rows_match(header.deep_view(), data.deep_view()),
    ensures
        r@ == column_widths(header.deep_view(), data.deep_view()),
{
    let ghost h = header.deep_view();
    let ghost d = data.deep_view();
    let n = header.len();
    let mut lengths: Vec<usize> = Vec::new();
    let mut i: usize = 0;
    while i < n
        invariant
            i <= n,
            n == header.len(),
            h == header.deep_view(),
            lengths@.len() == i,
            forall|j: int| 0 <= j < i ==> lengths@[j] == widest(h, d, j, 0),
        decreases n - i,
    {
        lengths.push(display_width(header[i].as_str()));
        i = i + 1;
    }
    let mut r: usize = 0;
    while r < data.len()
        invariant
            r <= data.len(),
            n == header.len(),
            h == header.deep_view(),
            d == data.deep_view(),
            rows_match(h, d),
            lengths@.len() == n,
            forall|j: int| 0 <= j < n ==> lengths@[j] == widest(h, d, j, r as nat),
        decreases data.len() - r,
    {
        assert(d[r as int].len() == n);
        let row = &data[r];
        let mut c: usize = 0;
        while c < n
            invariant
                c <= n,
                r < data.len(),
                n == header.len(),
                row@.len() == n,
                h == header.deep_view(),
                d == data.deep_view(),
                d[r as int] == row.deep_view(),
                lengths@.len() == n,
                forall|j: int| 0 <= j < c ==> lengths@[j] == widest(h, d, j, (r + 1) as nat),
                forall|j: int| c <= j < n ==> lengths@[j] == widest(h, d, j, r as nat),
            decreases n - c,
        {
            let w = display_width(row[c].as_str());
            if lengths[c] < w {
                lengths.set(c, w);
            }
            c = c + 1;
        }
        r = r + 1;
    }
    let mut i: usize = 0;
    while i < n
        invariant
            i <= n,
            n == header.len(),
            h == header.deep_view(),
            d == data.deep_view(),
            lengths@.len() == n,
            forall|j: int| 0 <= j < i ==> lengths@[j] == column_width(h, d, j),
            forall|j: int| i <= j < n ==> lengths@[j] == widest(h, d, j, d.len()),
        decreases n - i,
    {
        if lengths[i] > 20 {
            lengths.set(i, 20);
        }
        i = i + 1;
    }
    assert(lengths@ =~= column_widths(h, d));
    lengths
}

/// How far into a cell too wide for its column of width `w` it may be cut: `w - 3`
/// bytes, leaving room for the three dots.
pub open spec fn cut_point(w: nat) -> nat {
    if w >= 3 {
        (w - 3) as nat
    } else {
        0
    }
}

/// The last character boundary of `bytes` at or before byte `k`.
pub open spec fn boundary_before(bytes: Seq<u8>, k: int) -> int
    decreases k,
{
    if k <= 0 {
        0
    } else if is_char_boundary(bytes, k) {
        k
    } else {
        boundary_before(bytes, k - 1)
    }
}

/// The text of `s` cut to fit a column of width `w`: its characters up to the last
/// character boundary at or before byte `cut_point(w)`, then `...`.
pub open spec fn shortened(s: Seq<char>, w: nat) -> Seq<char> {
    let bytes = encode_utf8(s);
    decode_utf8(bytes.subrange(0, boundary_before(bytes, cut_point(w) as int))) + seq!['.', '.', '.']
}

/// How the cell `s` shows in a column of width `w`: whole if it fits, cut if not.
pub open spec fn shown(s: Seq<char>, w: nat) -> Seq<char> {
    if str_width(s) > w {
        shortened(s, w)
    } else {
        s
    }
}

/// A body cell can be shown in its column: what shows is no wider than the column,
/// so that the padding after it is not negative.
pub open spec fn fits_column(s: Seq<char>, w: nat) -> bool {
    str_width(shown(s, w)) <= w
}

/// Every body cell of the table can be shown in its column.
pub open spec fn tab_fits(header: Seq<Seq<char>>, data: Seq<Seq<Seq<char>>>) -> bool {
    let w = column_widths(header, data);
    forall|r: int, i: int|
        0 <= r < data.len() && 0 <= i < header.len() ==> fits_column(
            #[trigger] data[r][i],
            w[i] as nat,
        )
}

/// The last character boundary at or before `k` is a boundary, and not after `k`.
proof fn lemma_boundary_before(bytes: Seq<u8>, k: int)
    requires
        valid_utf8(bytes),
        k >= 0,
    ensures
        0 <= boundary_before(bytes, k) <= k,
        boundary_before(bytes, k) <= bytes.len(),
        is_char_boundary(bytes, boundary_before(bytes, k)),
    decreases k,
{
    if k > 0 && !is_char_boundary(bytes, k) {
        lemma_boundary_before(bytes, k - 1);
    }
}

/// The last character boundary of `s` at or before byte `k`.
fn boundary_at_or_before(s: &str, k: usize) -> (r: usize)
    ensures
        r == boundary_before(encode_utf8(s@), k as int),
{
    let ghost bytes = encode_utf8(s@);
    let mut i = k;
    while i > 0 && !s.is_char_boundary(i)
        invariant
            i <= k,
            bytes == encode_utf8(s@),
            boundary_before(bytes, k as int) == boundary_before(bytes, i as int),
        decreases i,
    {
        i = i - 1;
    }
    i
}

/// The first `k` cells of the title line.
pub open spec fn header_cells(header: Seq<Seq<char>>, w: Seq<usize>, k: nat) -> Seq<char>
    decreases k,
{
    if k == 0 {
        seq![]
    } else {
        let i = k - 1;
        header_cells(header, w, (k - 1) as nat) + center(shown(header[i], w[i] as nat), w[i] as nat)
            + " | "@
    }
}

/// A body cell: what shows of `s`, then spaces up to `w` columns.
pub open spec fn body_cell(s: Seq<char>, w: nat) -> Seq<char> {
    shown(s, w) + repeat_char(' ', (w - str_width(shown(s, w))) as nat) + " | "@
}

/// The first `k` cells of a body line.
pub open spec fn row_cells(row: Seq<Seq<char>>, w: Seq<usize>, k: nat) -> Seq<char>
    decreases k,
{
    if k == 0 {
        seq![]
    } else {
        row_cells(row, w, (k - 1) as nat) + body_cell(row[k - 1], w[k - 1] as nat)
    }
}

/// The first `k` cells of the line under the titles.
pub open spec fn separator_cells(w: Seq<usize>, k: nat) -> Seq<char>
    decreases k,
{
    if k == 0 {
        seq![]
    } else {
        separator_cells(w, (k - 1) as nat) + repeat_char('-', (w[k - 1] + 2) as nat) + "|"@
    }
}

/// The body lines of the first `k` rows.
pub open spec fn row_lines(data: Seq<Seq<Seq<char>>>, w: Seq<usize>, k: nat) -> Seq<char>
    decreases k,
{
    if k == 0 {
        seq![]
    } else {
        row_lines(data, w, (k - 1) as nat) + "| "@ + row_cells(data[k - 1], w, w.len()) + "\n"@
    }
}

/// The sum of the first `k` column widths.
pub open spec fn sum_widths(w: Seq<usize>, k: nat) -> nat
    decreases k,
{
    if k == 0 {
        0
    } else {
        sum_widths(w, (k - 1) as nat) + w[k - 1] as nat
    }
}

/// The length of the `=` rules: the columns with their borders.
pub open spec fn total_width(w: Seq<usize>) -> nat {
    3 * w.len() + 1 + sum_widths(w, w.len())
}

/// The text of the whole table: a rule, the titles centered, a dashed line, one
/// left-aligned line per row, and a closing rule (without a final line break).
pub open spec fn tab_text(header: Seq<Seq<char>>, data: Seq<Seq<Seq<char>>>) -> Seq<char> {
    let w = column_widths(header, data);
    let t = total_width(w);
    repeat_char('=', t) + "\n"@ + "| "@ + header_cells(header, w, w.len()) + "\n"@ + "|"@
        + separator_cells(w, w.len()) + "\n"@ + row_lines(data, w, data.len()) + repeat_char('=', t)
}

/// What shows of `s` in a column of width `w`.
fn shown_text(s: &str, w: usize) -> (r: String)
    ensures
        r@ == shown(s@, w as nat),
{
    let sw = display_width(s);
    if sw > w {
        let k: usize = if w >= 3 {
            w - 3
        } else {
            0
        };
        let b = boundary_at_or_before(s, k);
        proof {
            encode_utf8_valid_utf8(s@);
            lemma_boundary_before(encode_utf8(s@), k as int);
        }
        let (pre, _rest) = s.split_at(b);
        let mut r = pre.to_owned();
        proof {
            reveal_strlit("...");
            encode_utf8_decode_utf8(pre@);
            assert(encode_utf8(pre@) =~= encode_utf8(s@).subrange(0, b as int));
        }
        r.append("...");
        assert(r@ =~= shown(s@, w as nat));
        r
    } else {
        s.to_owned()
    }
}

/// Whether a body cell can be shown in its column.
fn fits_column_exec(s: &str, w: usize) -> (b: bool)
    ensures
        b == fits_column(s@, w as nat),
{
    let t = shown_text(s, w);
    display_width(t.as_str()) <= w
}

/// Appends the title cells, each centered in its column.
fn push_header_cells(out: &mut String, header: &Vec<String>, widths: &Vec<usize>)
    requires
        widths@.len() == header@.len(),
    ensures
        final(out)@ == old(out)@ + header_cells(header.deep_view(), widths@, widths@.len()),
{
    let ghost h = header.deep_view();
    let mut i: usize = 0;
    while i < header.len()
        invariant
            i <= header.len(),
            h == header.deep_view(),
            widths@.len() == header@.len(),
            out@ == old(out)@ + header_cells(h, widths@, i as nat),
        decreases header.len() - i,
    {
        let cell = shown_text(header[i].as_str(), widths[i]);
        push_center(out, cell.as_str(), widths[i]);
        out.append(" | ");
        i = i + 1;
        assert(out@ =~= old(out)@ + header_cells(h, widths@, i as nat));
    }
}

/// Appends the cells of one body line, each left-aligned in its column.
fn push_row_cells(out: &mut String, row: &Vec<String>, widths: &Vec<usize>)
    requires
        row@.len() == widths@.len(),
        forall|i: int| 0 <= i < row@.len() ==> fits_column(row@[i]@, widths@[i] as nat),
    ensures
        final(out)@ == old(out)@ + row_cells(row.deep_view(), widths@, widths@.len()),
{
    let ghost rv = row.deep_view();
    let mut i: usize = 0;
    proof {
        reveal_strlit(" ");
    }
    while i < row.len()
        invariant
            i <= row.len(),
            rv == row.deep_view(),
            row@.len() == widths@.len(),
            forall|j: int| 0 <= j < row@.len() ==> fits_column(row@[j]@, widths@[j] as nat),
            out@ == old(out)@ + row_cells(rv, widths@, i as nat),
            " "@ == seq![' '],
        decreases row.len() - i,
    {
        let w = widths[i];
        let cell = shown_text(row[i].as_str(), w);
        let cw = display_width(cell.as_str());
        out.append(cell.as_str());
        push_repeat(out, " ", w - cw);
        out.append(" | ");
        i = i + 1;
        assert(out@ =~= old(out)@ + row_cells(rv, widths@, i as nat));
    }
}

/// Appends the dashed cells under the titles.
fn push_separator_cells(out: &mut String, widths: &Vec<usize>)
    requires
        forall|i: int| 0 <= i < widths@.len() ==> widths@[i] <= max_item_width(),
    ensures
        final(out)@ == old(out)@ + separator_cells(widths@, widths@.len()),
{
    let mut i: usize = 0;
    proof {
        reveal_strlit("-");
    }
    while i < widths.len()
        invariant
            i <= widths.len(),
            forall|j: int| 0 <= j < widths@.len() ==> widths@[j] <= max_item_width(),
            out@ == old(out)@ + separator_cells(widths@, i as nat),
            "-"@ == seq!['-'],
        decreases widths.len() - i,
    {
        push_repeat(out, "-", widths[i] + 2);
        out.append("|");
        i = i + 1;
        assert(out@ =~= old(out)@ + separator_cells(widths@, i as nat));
    }
}

/// The sum of the column widths, with the borders: the length of the rules.
fn compute_total_width(widths: &Vec<usize>) -> (t: usize)
    requires
        widths@.len() <= usize::MAX / 24,
        forall|i: int| 0 <= i < widths@.len() ==> widths@[i] <= max_item_width(),
    ensures
        t == total_width(widths@),
{
    let n = widths.len();
    let mut sum: usize = 0;
    let mut i: usize = 0;
    while i < n
        invariant
            i <= n,
            n == widths@.len(),
            n <= usize::MAX / 24,
            forall|j: int| 0 <= j < n ==> widths@[j] <= max_item_width(),
            sum == sum_widths(widths@, i as nat),
            sum <= 20 * i,
        decreases n - i,
    {
        assert(20 * i + 20 <= 20 * n) by (nonlinear_arith)
            requires
                i < n,
        ;
        assert(20 * n <= usize::MAX) by (nonlinear_arith)
            requires
                n <= usize::MAX / 24,
        ;
        sum = sum + widths[i];
        i = i + 1;
    }
    assert(3 * n + 1 + 20 * n <= usize::MAX) by (nonlinear_arith)
        requires
            n <= usize::MAX / 24,
    ;
    3 * n + 1 + sum
}

/// No column is wider than `max_item_width()`.
pub proof fn lemma_widths_capped(header: Seq<Seq<char>>, data: Seq<Seq<Seq<char>>>)
    ensures
        forall|i: int|
            0 <= i < header.len() ==> #[trigger] column_widths(header, data)[i] <= max_item_width(),
{
}

/// The text of a table whose rows all have one cell per column and whose cells
/// all fit their columns.
pub fn render_tab(header: &Vec<String>, data: &Vec<Vec<String>>) -> (r: String)
    requires
        rows_match(header.deep_view(), data.deep_view()),
        header@.len() <= usize::MAX / 24,
        tab_fits(header.deep_view(), data.deep_view()),
    ensures
        r@ == tab_text(header.deep_view(), data.deep_view()),
{
    let ghost h = header.deep_view();
    let ghost d = data.deep_view();
    let widths = compute_widths(header, data);
    proof {
        lemma_widths_capped(h, d);
    }
    let total = compute_total_width(&widths);
    let mut out = String::new();
    proof {
        reveal_strlit("=");
    }
    push_repeat(&mut out, "=", total);
    out.append("\n");
    out.append("| ");
    push_header_cells(&mut out, header, &widths);
    out.append("\n");
    out.append("|");
    push_separator_cells(&mut out, &widths);
    out.append("\n");
    let ghost head = out@;
    let mut r: usize = 0;
    while r < data.len()
        invariant
            r <= data.len(),
            h == header.deep_view(),
            d == data.deep_view(),
            rows_match(h, d),
            tab_fits(h, d),
            widths@ == column_widths(h, d),
            out@ == head + row_lines(d, widths@, r as nat),
        decreases data.len() - r,
    {
        assert(d[r as int].len() == h.len());
        assert forall|i: int| 0 <= i < data@[r as int]@.len() implies fits_column(
            data@[r as int]@[i]@,
            widths@[i] as nat,
        ) by {
            assert(fits_column(d[r as int][i], widths@[i] as nat));
        }
        out.append("| ");
        push_row_cells(&mut out, &data[r], &widths);
        out.append("\n");
        r = r + 1;
        assert(out@ =~= head + row_lines(d, widths@, r as nat));
    }
    push_repeat(&mut out, "=", total);
    assert(out@ =~= tab_text(h, d));
    out
}

/// Whether every cell of the table can be shown in its column.
fn check_fits(header: &Vec<String>, data: &Vec<Vec<String>>, widths: &Vec<usize>) -> (b: bool)
    requires
        rows_match(header.deep_view(), data.deep_view()),
        widths@ == column_widths(header.deep_view(), data.deep_view()),
    ensures
        b == tab_fits(header.deep_view(), data.deep_view()),
{
    let ghost h = header.deep_view();
    let ghost d = data.deep_view();
    let n = header.len();
    assert(h.len() == n);
    let mut r: usize = 0;
    while r < data.len()
        invariant
            r <= data.len(),
            n == header.len(),
            h == header.deep_view(),
            d == data.deep_view(),
            rows_match(h, d),
            widths@ == column_widths(h, d),
            h.len() == n,
            widths@.len() == n,
            forall|k: int, j: int|
                0 <= k < r && 0 <= j < n ==> fits_column(#[trigger] d[k][j], widths@[j] as nat),
        decreases data.len() - r,
    {
        let row = &data[r];
        assert(d[r as int].len() == n);
        let mut c: usize = 0;
        while c < n
            invariant
                c <= n,
                r < data.len(),
                n == header.len(),
                row@.len() == n,
                h == header.deep_view(),
                d == data.deep_view(),
                d[r as int] == row.deep_view(),
                widths@ == column_widths(h, d),
                h.len() == n,
                widths@.len() == n,
                forall|j: int| 0 <= j < c ==> fits_column(#[trigger] d[r as int][j], widths@[j] as nat),
            decreases n - c,
        {
            if !fits_column_exec(row[c].as_str(), widths[c]) {
                assert(!fits_column(d[r as int][c as int], widths@[c as int] as nat));
                assert(!tab_fits(h, d));
                return false;
            }
            c = c + 1;
        }
        r = r + 1;
    }
    true
}

/// What the table tool shows for a header and rows of cells: `Some(Err(..))` when
/// there is no header or a row has a different number of cells than the header
/// (the first such row), `Some(Ok(text))` with the table's text when every body
/// cell can be shown in its column, and `None` when a cut body cell is still wider
/// than its column.
pub fn tab_output(header: &Vec<String>, data: &Vec<Vec<String>>) -> (r: Option<Result<String, TabError>>)
    requires
        header@.len() <= usize::MAX / 24,
    ensures
        (match tab_check(header.deep_view(), data.deep_view()) {
            Err(e) => r == Some(Err::<String, TabError>(e)),
            Ok(_) => {
                &&& (r is Some <==> tab_fits(header.deep_view(), data.deep_view()))
                &&& (r matches Some(res) ==> (res matches Ok(text) && text@ == tab_text(
                    header.deep_view(),
                    data.deep_view(),
                )))
            },
        }),
{
    match check_tab(header, data) {
        Err(e) => Some(Err(e)),
        Ok(()) => {
            let widths = compute_widths(header, data);
            if check_fits(header, data, &widths) {
                Some(Ok(render_tab(header, data)))
            } else {
                None
            }
        },
    }
}

/// The widest text of a column is at least as wide as its title.
proof fn lemma_widest_covers_title(header: Seq<Seq<char>>, data: Seq<Seq<Seq<char>>>, i: int, k: nat)
    ensures
        str_width(header[i]) <= widest(header, data, i, k),
    decreases k,
{
    if k > 0 {
        lemma_widest_covers_title(header, data, i, (k - 1) as nat);
    }
}

/// The widest text of a column among the first `k` rows is at least as wide as
/// each of their cells in it.
proof fn lemma_widest_covers_cells(
    header: Seq<Seq<char>>,
    data: Seq<Seq<Seq<char>>>,
    i: int,
    k: nat,
    r: int,
)
    requires
        0 <= r < k,
    ensures
        str_width(data[r][i]) <= widest(header, data, i, k),
    decreases k,
{
    if r < k - 1 {
        lemma_widest_covers_cells(header, data, i, (k - 1) as nat, r);
    }
}

/// A cell is cut only in a column that has reached the width limit: a column is
/// as wide as its widest title or cell unless that is wider than `max_item_width()`.
pub proof fn lemma_cut_only_when_capped(header: Seq<Seq<char>>, data: Seq<Seq<Seq<char>>>, i: int)
    requires
        0 <= i < header.len(),
    ensures
        str_width(header[i]) > column_widths(header, data)[i] ==> column_widths(header, data)[i]
            == max_item_width(),
        forall|r: int|
            0 <= r < data.len() && str_width(#[trigger] data[r][i]) > column_widths(header, data)[i]
                ==> column_widths(header, data)[i] == max_item_width(),
{
    assert forall|r: int|
        0 <= r < data.len() && str_width(#[trigger] data[r][i]) > column_widths(header, data)[i]
            implies column_widths(header, data)[i] == max_item_width() by {
        lemma_widest_covers_cells(header, data, i, data.len(), r);
    }
    lemma_widest_covers_title(header, data, i, data.len());
}

/// The sum of the first `k` separator cells: each is its column's width plus three.
proof fn lemma_separator_cells_len(w: Seq<usize>, k: nat)
    requires
        k <= w.len(),
    ensures
        separator_cells(w, k).len() == 3 * k + sum_widths(w, k),
    decreases k,
{
    reveal_strlit("|");
    if k > 0 {
        lemma_separator_cells_len(w, (k - 1) as nat);
    }
}

/// The dashed line under the titles is exactly as long as the `=` rules above and
/// below the table.
pub proof fn lemma_separator_spans_table(header: Seq<Seq<char>>, data: Seq<Seq<Seq<char>>>)
    ensures
        ("|"@ + separator_cells(column_widths(header, data), header.len())).len() == total_width(
            column_widths(header, data),
        ),
{
    reveal_strlit("|");
    lemma_separator_cells_len(column_widths(header, data), header.len());
}

} // verus!
