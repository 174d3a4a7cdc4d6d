use vstd::prelude::*;

use crate::paths::{path_components, same_path, same_parts, PathStyle};

use crate::text::{center, decimal, max_nat, pad_right, push_center, push_decimal, push_pad_right, push_repeat, repeat_char};

verus! {

/// One listed link: the settings file it belongs to, where the link lies,
/// and whether it is a working link to that file.
pub type LinkEntry = (Seq<char>, Seq<char>, bool);

/// The state of the symbolic links of one program: for each settings file,
/// the file's name, the path of its link and whether the link is valid.
#[derive(Debug, Clone)]
pub struct LinkState {
    data: Vec<(String, String, bool)>,
}

impl View for LinkState {
    type V = Seq<LinkEntry>;

    closed spec fn view(&self) -> Seq<LinkEntry> {
        self.data.deep_view()
    }
}

/// How many entries of `s` are valid links.
pub open spec fn count_valid(s: Seq<LinkEntry>) -> nat
    decreases s.len(),
{
    if s.len() == 0 {
        0
    } else {
        count_valid(s.drop_last()) + if s.last().2 { 1nat } else { 0nat }
    }
}

/// How many entries of `s` are broken links.
pub open spec fn count_invalid(s: Seq<LinkEntry>) -> nat
    decreases s.len(),
{
    if s.len() == 0 {
        0
    } else {
        count_invalid(s.drop_last()) + if s.last().2 { 0nat } else { 1nat }
    }
}

/// Every entry is either valid or broken: the two counts add up to the number of entries.
pub proof fn lemma_counts_partition(s: Seq<LinkEntry>)
    ensures
        count_valid(s) + count_invalid(s) == s.len(),
    decreases s.len(),
{
    if s.len() > 0 {
        lemma_counts_partition(s.drop_last());
    }
}

/// Neither count exceeds the number of entries.
proof fn lemma_counts_bounded(s: Seq<LinkEntry>)
    ensures
        count_valid(s) <= s.len(),
        count_invalid(s) <= s.len(),
{
    lemma_counts_partition(s);
}

/// The most characters in any file name of `s`.
pub open spec fn max_target_len(s: Seq<LinkEntry>) -> nat
    decreases s.len(),
{
    if s.len() == 0 {
        0
    } else {
        max_nat(max_target_len(s.drop_last()), s.last().0.len())
    }
}

/// The most characters in any link path of `s`.
pub open spec fn max_path_len(s: Seq<LinkEntry>) -> nat
    decreases s.len(),
{
    if s.len() == 0 {
        0
    } else {
        max_nat(max_path_len(s.drop_last()), s.last().1.len())
    }
}

/// The file-name (link-path) column is sized by the longest file name (link path):
/// no entry's name (path) is longer, and some entry's is exactly that long; with no
/// entries both are 0.
pub proof fn lemma_longest_entry(s: Seq<LinkEntry>)
    ensures
        forall|i: int|
            0 <= i < s.len() ==> #[trigger] s[i].0.len() <= max_target_len(s) && s[i].1.len()
                <= max_path_len(s),
        s.len() == 0 ==> max_target_len(s) == 0 && max_path_len(s) == 0,
        s.len() > 0 ==> exists|i: int| 0 <= i < s.len() && #[trigger] s[i].0.len() == max_target_len(s),
        s.len() > 0 ==> exists|i: int| 0 <= i < s.len() && #[trigger] s[i].1.len() == max_path_len(s),
    decreases s.len(),
{
    if s.len() > 0 {
        let init = s.drop_last();
        lemma_longest_entry(init);
        assert forall|i: int| 0 <= i < s.len() implies #[trigger] s[i].0.len() <= max_target_len(s)
            && s[i].1.len() <= max_path_len(s) by {
            if i < s.len() - 1 {
                assert(init[i] == s[i]);
            }
        }
        if s.last().0.len() >= max_target_len(init) {
            assert(s[s.len() - 1].0.len() == max_target_len(s));
        } else {
            let j = choose|j: int| 0 <= j < init.len() && #[trigger] init[j].0.len() == max_target_len(init);
            assert(s[j] == init[j]);
            assert(s[j].0.len() == max_target_len(s));
        }
        if s.last().1.len() >= max_path_len(init) {
            assert(s[s.len() - 1].1.len() == max_path_len(s));
        } else {
            let j = choose|j: int| 0 <= j < init.len() && #[trigger] init[j].1.len() == max_path_len(init);
            assert(s[j] == init[j]);
            assert(s[j].1.len() == max_path_len(s));
        }
    }
}

/// Width of the file-name column: the longest name, at least 10.
pub open spec fn target_width(s: Seq<LinkEntry>) -> nat {
    max_nat(max_target_len(s), 10)
}

/// Width of the link column: the longest path, at least 12.
pub open spec fn path_width(s: Seq<LinkEntry>) -> nat {
    max_nat(max_path_len(s), 12)
}

/// Width of the status column.
pub open spec fn status_width() -> nat {
    10
}

/// The length of the two `=` rules around the table.
pub open spec fn rule_width(s: Seq<LinkEntry>) -> nat {
    target_width(s) + path_width(s) + status_width() + 9
}

/// How the status of a link reads in the table.
pub open spec fn status_text(valid: bool) -> Seq<char> {
    if valid { "✓ VALID"@ } else { "✗ BROKEN"@ }
}

/// Every line of the table's body is equally long, so that its `|` line up: no
/// file name or link path sticks out of its column.
pub proof fn lemma_body_lines_aligned(s: Seq<LinkEntry>)
    ensures
        forall|i: int|
            0 <= i < s.len() ==> (#[trigger] table_line(
                s[i].0,
                s[i].1,
                status_text(s[i].2),
                target_width(s),
                path_width(s),
            )).len() == target_width(s) + path_width(s) + status_width() + 11,
{
    lemma_longest_entry(s);
    reveal_strlit("✓ VALID");
    reveal_strlit("✗ BROKEN");
    reveal_strlit("| ");
    reveal_strlit(" | ");
    reveal_strlit(" |\n");
    assert forall|i: int| 0 <= i < s.len() implies (#[trigger] table_line(
        s[i].0,
        s[i].1,
        status_text(s[i].2),
        target_width(s),
        path_width(s),
    )).len() == target_width(s) + path_width(s) + status_width() + 11 by {
        assert(s[i].0.len() <= target_width(s));
        assert(s[i].1.len() <= path_width(s));
        assert(status_text(s[i].2).len() <= status_width());
    }
}

/// The table's body has one line per entry and no other text: in columns as wide
/// as the table's, it is as long as that many lines of the table's width.
pub proof fn lemma_body_has_a_line_per_entry(s: Seq<LinkEntry>)
    ensures
        body_lines(s, target_width(s), path_width(s)).len() == s.len() * (target_width(s) + path_width(s)
            + status_width() + 11),
{
    lemma_longest_entry(s);
    assert(s.take(s.len() as int) =~= s);
    lemma_body_lines_len(s, s.len() as int, target_width(s), path_width(s));
}

/// The body lines of the first `k` entries, when every name and path fits its
/// column of width `tw` and `pw`.
proof fn lemma_body_lines_len(s: Seq<LinkEntry>, k: int, tw: nat, pw: nat)
    requires
        0 <= k <= s.len(),
        forall|i: int| 0 <= i < s.len() ==> #[trigger] s[i].0.len() <= tw && s[i].1.len() <= pw,
    ensures
        body_lines(s.take(k), tw, pw).len() == k * (tw + pw + status_width() + 11),
    decreases k,
{
    reveal_strlit("✓ VALID");
    reveal_strlit("✗ BROKEN");
    reveal_strlit("| ");
    reveal_strlit(" | ");
    reveal_strlit(" |\n");
    if k > 0 {
        lemma_body_lines_len(s, k - 1, tw, pw);
        let t = s.take(k);
        assert(t.drop_last() =~= s.take(k - 1));
        assert(t.last() == s[k - 1]);
        assert(s[k - 1].0.len() <= tw);
        assert(status_text(s[k - 1].2).len() <= status_width());
        let c = tw + pw + status_width() + 11;
        assert(pad_right(s[k - 1].0, tw).len() == tw);
        assert(pad_right(s[k - 1].1, pw).len() == pw);
        assert(center(status_text(s[k - 1].2), status_width()).len() == status_width());
        assert(table_line(s[k - 1].0, s[k - 1].1, status_text(s[k - 1].2), tw, pw).len() == c);
        assert(body_lines(t, tw, pw) == body_lines(s.take(k - 1), tw, pw) + table_line(
            s[k - 1].0,
            s[k - 1].1,
            status_text(s[k - 1].2),
            tw,
            pw,
        ));
        assert((k - 1) * c + c == k * c) by (nonlinear_arith);
    } else {
        assert(s.take(k).len() == 0);
        assert(k * (tw + pw + status_width() + 11) == 0);
    }
}

/// A `=` rule of `w` characters, ending the line.
pub open spec fn rule_line(w: nat) -> Seq<char> {
    repeat_char('=', w) + "\n"@
}

/// A line of the table with the three given cells.
pub open spec fn table_line(a: Seq<char>, b: Seq<char>, c: Seq<char>, tw: nat, pw: nat) -> Seq<char> {
    "| "@ + pad_right(a, tw) + " | "@ + pad_right(b, pw) + " | "@ + center(c, status_width())
        + " |\n"@
}

/// The line under the column titles.
pub open spec fn separator_line(tw: nat, pw: nat) -> Seq<char> {
    "|"@ + repeat_char('-', tw + 2) + "|"@ + repeat_char('-', pw + 2) + "|"@ + repeat_char(
        '-',
        status_width() + 2,
    ) + "|\n"@
}

/// The lines of the table's body, one per entry, in order.
pub open spec fn body_lines(s: Seq<LinkEntry>, tw: nat, pw: nat) -> Seq<char>
    decreases s.len(),
{
    if s.len() == 0 {
        seq![]
    } else {
        body_lines(s.drop_last(), tw, pw) + table_line(
            s.last().0,
            s.last().1,
            status_text(s.last().2),
            tw,
            pw,
        )
    }
}

/// The closing line with the totals.
pub open spec fn summary_line(s: Seq<LinkEntry>) -> Seq<char> {
    "Total: "@ + decimal(s.len()) + " links ("@ + decimal(count_valid(s)) + " valid, "@ + decimal(
        count_invalid(s),
    ) + " broken)\n"@
}

/// The whole text that shows the link state `s`.
pub open spec fn link_table(s: Seq<LinkEntry>) -> Seq<char> {
    if s.len() == 0 {
        "No symbolic links found.\n"@
    } else {
        let tw = target_width(s);
        let pw = path_width(s);
        rule_line(rule_width(s)) + table_line("Target File"@, "Symbolic Link"@, "Status"@, tw, pw)
            + separator_line(tw, pw) + body_lines(s, tw, pw) + rule_line(rule_width(s))
            + summary_line(s)
    }
}

impl LinkState {
    /// Builds the state from its entries, kept in the given order.
    pub fn from_vec(data: Vec<(String, String, bool)>) -> (r: Self)
        ensures
            r@ == data.deep_view(),
    {
        LinkState { data }
    }

    /// The number of entries.
    pub fn len(&self) -> (n: usize)
        ensures
            n == self@.len(),
    {
        self.data.len()
    }

    /// The number of valid links.
    pub fn valid_count(&self) -> (n: usize)
        ensures
            n == count_valid(self@),
    {
        let mut n: usize = 0;
        let mut i: usize = 0;
        while i < self.data.len()
            invariant
                i <= self.data.len(),
                self@ == self.data.deep_view(),
                n == count_valid(self@.take(i as int)),
            decreases self.data.len() - i,
        {
            proof {
                assert(self@.take(i + 1).drop_last() =~= self@.take(i as int));
                lemma_counts_bounded(self@.take(i + 1));
            }
            if self.data[i].2 {
                n = n + 1;
            }
            i = i + 1;
        }
        assert(self@.take(i as int) =~= self@);
        n
    }

    /// The number of broken links.
    pub fn invalid_count(&self) -> (n: usize)
        ensures
            n == count_invalid(self@),
    {
        let mut n: usize = 0;
        let mut i: usize = 0;
        while i < self.data.len()
            invariant
                i <= self.data.len(),
                self@ == self.data.deep_view(),
                n == count_invalid(self@.take(i as int)),
            decreases self.data.len() - i,
        {
            proof {
                assert(self@.take(i + 1).drop_last() =~= self@.take(i as int));
                lemma_counts_bounded(self@.take(i + 1));
            }
            if !self.data[i].2 {
                n = n + 1;
            }
            i = i + 1;
        }
        assert(self@.take(i as int) =~= self@);
        n
    }

    /// The text that shows the link state: a table of the entries followed by
    /// their totals, or a notice when there are none (what its `Display` writes).
    pub fn render(&self) -> (r: String)
        requires
            rule_width(self@) <= usize::MAX,
        ensures
            r@ == link_table(self@),
    {
        let mut out = String::new();
        if self.data.len() == 0 {
            out.append("No symbolic links found.\n");
            return out;
        }
        let (max_target, max_path) = self.max_lens();
        let tw: usize = if max_target < 10 { 10 } else { max_target };
        let pw: usize = if max_path < 12 { 12 } else { max_path };
        let total: usize = tw + pw + 10 + 9;
        push_rule(&mut out, total);
        push_table_line(&mut out, "Target File", "Symbolic Link", "Status", tw, pw);
        push_separator(&mut out, tw, pw);
        self.push_body(&mut out, tw, pw);
        push_rule(&mut out, total);
        self.push_summary(&mut out);
        assert(out@ =~= link_table(self@));
        out
    }

    /// The most characters in a file name and in a link path.
    fn max_lens(&self) -> (r: (usize, usize))
        ensures
            r.0 == max_target_len(self@),
            r.1 == max_path_len(self@),
    {
        let mut max_target: usize = 0;
        let mut max_path: usize = 0;
        let mut i: usize = 0;
        while i < self.data.len()
            invariant
                i <= self.data.len(),
                self@ == self.data.deep_view(),
                max_target == max_target_len(self@.take(i as int)),
                max_path == max_path_len(self@.take(i as int)),
            decreases self.data.len() - i,
        {
            assert(self@.take(i + 1).drop_last() =~= self@.take(i as int));
            let target_len = self.data[i].0.as_str().unicode_len();
            let path_len = self.data[i].1.as_str().unicode_len();
            if max_target < target_len {
                max_target = target_len;
            }
            if max_path < path_len {
                max_path = path_len;
            }
            i = i + 1;
        }
        assert(self@.take(i as int) =~= self@);
        (max_target, max_path)
    }

    /// Appends one table line per entry.
    fn push_body(&self, out: &mut String, tw: usize, pw: usize)
        ensures
            final(out)@ == old(out)@ + body_lines(self@, tw as nat, pw as nat),
    {
        let mut j: usize = 0;
        while j < self.data.len()
            invariant
                j <= self.data.len(),
                self@ == self.data.deep_view(),
                out@ == old(out)@ + body_lines(self@.take(j as int), tw as nat, pw as nat),
            decreases self.data.len() - j,
        {
            assert(self@.take(j + 1).drop_last() =~= self@.take(j as int));
            let status = if self.data[j].2 {
                "✓ VALID"
            } else {
                "✗ BROKEN"
            };
            push_table_line(out, self.data[j].0.as_str(), self.data[j].1.as_str(), status, tw, pw);
            j = j + 1;
            assert(out@ =~= old(out)@ + body_lines(self@.take(j as int), tw as nat, pw as nat));
        }
        assert(self@.take(j as int) =~= self@);
    }

    /// Appends the line with the totals.
    fn push_summary(&self, out: &mut String)
        ensures
            final(out)@ == old(out)@ + summary_line(self@),
    {
        let valid = self.valid_count();
        let invalid = self.invalid_count();
        out.append("Total: ");
        push_decimal(out, self.data.len());
        out.append(" links (");
        push_decimal(out, valid);
        out.append(" valid, ");
        push_decimal(out, invalid);
        out.append(" broken)\n");
        assert(out@ =~= old(out)@ + summary_line(self@));
    }
}

/// Appends a `=` rule of `w` characters and ends the line.
fn push_rule(out: &mut String, w: usize)
    ensures
        final(out)@ == old(out)@ + rule_line(w as nat),
{
    proof {
        reveal_strlit("=");
    }
    push_repeat(out, "=", w);
    out.append("\n");
    assert(out@ =~= old(out)@ + rule_line(w as nat));
}

/// Appends the line under the column titles.
fn push_separator(out: &mut String, tw: usize, pw: usize)
    requires
        tw + 2 <= usize::MAX,
        pw + 2 <= usize::MAX,
    ensures
        final(out)@ == old(out)@ + separator_line(tw as nat, pw as nat),
{
    proof {
        reveal_strlit("-");
    }
    out.append("|");
    push_repeat(out, "-", tw + 2);
    out.append("|");
    push_repeat(out, "-", pw + 2);
    out.append("|");
    push_repeat(out, "-", 12);
    out.append("|\n");
    assert(out@ =~= old(out)@ + separator_line(tw as nat, pw as nat));
}

/// Appends one line of the link table with the three given cells.
fn push_table_line(out: &mut String, a: &str, b: &str, c: &str, tw: usize, pw: usize)
    ensures
        final(out)@ == old(out)@ + table_line(a@, b@, c@, tw as nat, pw as nat),
{
    out.append("| ");
    push_pad_right(out, a, tw);
    out.append(" | ");
    push_pad_right(out, b, pw);
    out.append(" | ");
    push_center(out, c, 10);
    out.append(" |\n");
    assert(out@ =~= old(out)@ + table_line(a@, b@, c@, tw as nat, pw as nat));
}

/// The mark the link listing shows for a link's state.
pub open spec fn state_mark(valid: bool) -> Seq<char> {
    if valid { "✅ Ok"@ } else { "❌ Broken"@ }
}

/// The row the link listing shows for one entry: file name, link path, mark.
pub open spec fn listing_row(e: LinkEntry) -> Seq<Seq<char>> {
    seq![e.0, e.1, state_mark(e.2)]
}

/// The rows of the link listing: one per entry, in order.
pub fn link_state(items: &Vec<(String, String, bool)>) -> (rows: Vec<Vec<String>>)
    ensures
        rows.deep_view() == items.deep_view().map_values(|e: LinkEntry| listing_row(e)),
{
    let ghost s = items.deep_view();
    let mut rows: Vec<Vec<String>> = Vec::new();
    let mut i: usize = 0;
    while i < items.len()
        invariant
            i <= items.len(),
            s == items.deep_view(),
            rows.deep_view() =~= s.take(i as int).map_values(|e: LinkEntry| listing_row(e)),
        decreases items.len() - i,
    {
        let mark = if items[i].2 {
            String::from_str("✅ Ok")
        } else {
            String::from_str("❌ Broken")
        };
        let mut row: Vec<String> = Vec::new();
        row.push(items[i].0.clone());
        row.push(items[i].1.clone());
        row.push(mark);
        assert(row.deep_view() =~= listing_row(s[i as int]));
        let ghost before = rows.deep_view();
        rows.push(row);
        assert(rows.deep_view() =~= before.push(listing_row(s[i as int])));
        assert(s.take(i + 1) =~= s.take(i as int).push(s[i as int]));
        i = i + 1;
        assert(rows.deep_view() =~= s.take(i as int).map_values(|e: LinkEntry| listing_row(e)));
    }
    assert(s.take(i as int) =~= s);
    rows
}

/// Whether every link of `s` is valid.
pub open spec fn all_valid(s: Seq<LinkEntry>) -> bool {
    forall|i: int| 0 <= i < s.len() ==> #[trigger] s[i].2
}

/// A program's links are all in order exactly when none of them is broken.
pub proof fn lemma_all_valid_iff_none_broken(s: Seq<LinkEntry>)
    ensures
        all_valid(s) <==> count_invalid(s) == 0,
    decreases s.len(),
{
    if s.len() > 0 {
        lemma_all_valid_iff_none_broken(s.drop_last());
        if all_valid(s) {
            assert(all_valid(s.drop_last()));
        } else if all_valid(s.drop_last()) {
            let j = choose|j: int| 0 <= j < s.len() && !#[trigger] s[j].2;
            if j < s.len() - 1 {
                assert(s.drop_last()[j].2);
            }
            assert(!s.last().2);
        }
    }
}

/// How the check of a program reads: its name, then `true` when all of its links
/// are valid and `false` otherwise.
pub open spec fn check_row_of(program: Seq<char>, s: Seq<LinkEntry>) -> Seq<Seq<char>> {
    seq![program, if all_valid(s) { "true"@ } else { "false"@ }]
}

/// The check of a program names it and reads `true` exactly when none of its links
/// is broken: any broken link, wherever it stands, makes it read `false`.
pub proof fn lemma_check_row_reports_broken_links(program: Seq<char>, s: Seq<LinkEntry>)
    ensures
        check_row_of(program, s).len() == 2,
        check_row_of(program, s)[0] == program,
        count_invalid(s) == 0 ==> check_row_of(program, s)[1] == "true"@,
        count_invalid(s) > 0 ==> check_row_of(program, s)[1] == "false"@,
        forall|i: int| 0 <= i < s.len() && !(#[trigger] s[i].2) ==> check_row_of(program, s)[1] == "false"@,
{
    lemma_all_valid_iff_none_broken(s);
}

/// The row the check of all programs shows for one program and its links.
pub fn check_row(program: &String, data: &Vec<(String, String, bool)>) -> (row: Vec<String>)
    ensures
        row.deep_view() == check_row_of(program@, data.deep_view()),
{
    let ghost s = data.deep_view();
    let mut state = true;
    let mut i: usize = 0;
    while i < data.len()
        invariant
            i <= data.len(),
            s == data.deep_view(),
            state == all_valid(s.take(i as int)),
        decreases data.len() - i,
    {
        state = state && data[i].2;
        i = i + 1;
        proof {
            if !data[i - 1].2 {
                assert(s.take(i as int)[i - 1].2 == false);
            }
        }
    }
    proof {
        if state {
            assert(s.take(i as int) =~= s);
        } else {
            assert(!all_valid(s));
        }
    }
    let mut row: Vec<String> = Vec::new();
    row.push(program.clone());
    row.push(
        if state {
            String::from_str("true")
        } else {
            String::from_str("false")
        },
    );
    assert(row.deep_view() =~= check_row_of(program@, s));
    row
}

/// Whether a link is in order: something lies at the link's path, it is a symbolic
/// link (`target` is where it points; `None` when it is not a symbolic link), and it
/// points at the settings file `file_path` (compared component by component).
pub fn link_is_valid(style: PathStyle, exists: bool, target: Option<&str>, file_path: &str) -> (r: bool)
    ensures
        r == (exists && (target matches Some(t) && same_parts(
            path_components(style, t@),
            path_components(style, file_path@),
        ))),
{
    if !exists {
        return false;
    }
    match target {
        Some(t) => same_path(style, t, file_path),
        None => false,
    }
}

} // verus!
