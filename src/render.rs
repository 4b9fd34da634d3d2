//! The two-column view of a comparison: added names on the left, removed
//! names on the right, each painted in its terminal style.
use vstd::prelude::*;
use vstd::string::StrSliceExecFns;
use crate::text::push_char;

verus! {

#[verifier::external_type_specification]
#[verifier::external_body]
pub struct ExStyle(nu_ansi_term::Style);

/// The width, in characters, to which each column is padded.
pub const COLUMN_WIDTH: usize = 20;

/// How names are shown: the style of each marker and the icon put before
/// folders and before other entries.
pub struct Theme {
    pub added: nu_ansi_term::Style,
    pub removed: nu_ansi_term::Style,
    pub filler: nu_ansi_term::Style,
    pub folder_icon: String,
    pub file_icon: String,
}

/// One name to show, with the style of its kind and whether it is a folder.
pub struct Shown {
    pub name: String,
    pub style: nu_ansi_term::Style,
    pub is_dir: bool,
}

/// `c` is `text` between the escape codes of some style.
pub open spec fn painted(c: Seq<char>, text: Seq<char>) -> bool {
    exists|p: Seq<char>, q: Seq<char>| c == p + text + q
}

/// Relies on `nu_ansi_term::Style::paint` and its `Display`: the text is
/// written between the style's prefix and suffix.
#[verifier::external_body]
fn paint(style: nu_ansi_term::Style, text: &str) -> (r: String)
    ensures
        painted(r@, text@),
{
    style.paint(text).to_string()
}

pub open spec fn spaces(n: nat) -> Seq<char> {
    Seq::new(n, |i: int| ' ')
}

/// `s` followed by spaces up to `width` characters.
pub open spec fn pad_end_text(s: Seq<char>, width: int) -> Seq<char> {
    if s.len() < width {
        s + spaces((width - s.len()) as nat)
    } else {
        s
    }
}

/// `s` after spaces up to `width` characters.
pub open spec fn pad_start_text(s: Seq<char>, width: int) -> Seq<char> {
    if s.len() < width {
        spaces((width - s.len()) as nat) + s
    } else {
        s
    }
}

/// One printed row: the left cell padded on its right, a tab, and the
/// right cell padded on its left.
pub open spec fn row_text(left: Seq<char>, right: Seq<char>) -> Seq<char> {
    pad_end_text(left, COLUMN_WIDTH as int) + seq!['\t'] + pad_start_text(right, COLUMN_WIDTH as int)
}

/// The cell at `i`, or `filler` past the end of `cells`.
pub open spec fn cell_at(cells: Seq<Seq<char>>, i: int, filler: Seq<char>) -> Seq<char> {
    if i < cells.len() {
        cells[i]
    } else {
        filler
    }
}

fn push_spaces(out: &mut String, n: usize)
    ensures
        final(out)@ == old(out)@ + spaces(n as nat),
{
    let mut i: usize = 0;
    while i < n
        invariant
            i <= n,
            out@ == old(out)@ + spaces(i as nat),
        decreases n - i,
    {
        push_char(out, ' ');
        assert(out@ =~= old(out)@ + spaces((i + 1) as nat));
        i = i + 1;
    }
}

/// `s` padded with spaces on its right to `width` characters.
pub fn pad_end(s: &str, width: usize) -> (r: String)
    ensures
        r@ == pad_end_text(s@, width as int),
{
    let n = s.unicode_len();
    let mut out = s.to_owned();
    if n < width {
        push_spaces(&mut out, width - n);
    }
    out
}

/// `s` padded with spaces on its left to `width` characters.
pub fn pad_start(s: &str, width: usize) -> (r: String)
    ensures
        r@ == pad_start_text(s@, width as int),
{
    let n = s.unicode_len();
    let mut out = String::new();
    if n < width {
        push_spaces(&mut out, width - n);
    }
    out.append(s);
    assert(out@ =~= pad_start_text(s@, width as int));
    out
}

/// Lays out one row of the view.
pub fn row_line(left: &str, right: &str) -> (r: String)
    ensures
        r@ == row_text(left@, right@),
{
    let mut out = pad_end(left, COLUMN_WIDTH);
    push_char(&mut out, '\t');
    let right_cell = pad_start(right, COLUMN_WIDTH);
    out.append(right_cell.as_str());
    out
}

/// Pairs the cells of two columns row by row; the shorter column is
/// filled with `filler`.
pub fn pair_rows(left: &Vec<String>, right: &Vec<String>, filler: &String) -> (r: Vec<String>)
    ensures
        r.len() == if left.len() >= right.len() { left.len() } else { right.len() },
        forall|i: int|
            0 <= i < r.len() ==> #[trigger] r[i]@ == row_text(
                cell_at(left.deep_view(), i, filler@),
                cell_at(right.deep_view(), i, filler@),
            ),
{
    let mut out: Vec<String> = Vec::new();
    let mut i: usize = 0;
    while i < left.len() || i < right.len()
        invariant
            out.len() == i,
            i <= left.len() || i <= right.len(),
            forall|k: int|
                0 <= k < i ==> #[trigger] out[k]@ == row_text(
                    cell_at(left.deep_view(), k, filler@),
                    cell_at(right.deep_view(), k, filler@),
                ),
        decreases left.len() + right.len() - i,
    {
        let l: &String = if i < left.len() { &left[i] } else { filler };
        let r: &String = if i < right.len() { &right[i] } else { filler };
        let line = row_line(l.as_str(), r.as_str());
        out.push(line);
        i = i + 1;
    }
    out
}

/// The icon shown before `s`.
pub open spec fn icon_of(s: Shown, theme: Theme) -> Seq<char> {
    if s.is_dir {
        theme.folder_icon@
    } else {
        theme.file_icon@
    }
}

/// `c` shows `name`: the painted `marker`, a space, then the icon, a space
/// and the name, painted together.
pub open spec fn shows(c: Seq<char>, marker: Seq<char>, icon: Seq<char>, name: Seq<char>) -> bool {
    exists|a: Seq<char>, b: Seq<char>, p: Seq<char>, q: Seq<char>|
        c == a + marker + b + seq![' '] + p + icon + seq![' '] + name + q
}

/// The cell of row `i` in a column of `items` under `marker`: it shows the
/// item's name, or past the last item it is the painted filler `---`.
pub open spec fn column_cell(c: Seq<char>, items: Seq<Shown>, i: int, marker: Seq<char>, theme: Theme) -> bool {
    if i < items.len() {
        shows(c, marker, icon_of(items[i], theme), items[i].name@)
    } else {
        painted(c, seq!['-', '-', '-'])
    }
}

/// `c` is the cell of `name`: `marker`, a space, and the icon, a space and
/// the name, painted together.
pub open spec fn entry_text(c: Seq<char>, marker: Seq<char>, icon: Seq<char>, name: Seq<char>) -> bool {
    exists|p: Seq<char>, q: Seq<char>| c == marker + seq![' '] + p + icon + seq![' '] + name + q
}

/// The cell of one name: `marker`, a space, and the icon and the name
/// painted in `style`.
pub fn entry_cell(marker: &String, style: nu_ansi_term::Style, icon: &String, name: &String) -> (r: String)
    ensures
        entry_text(r@, marker@, icon@, name@),
{
    let mut label = icon.clone();
    push_char(&mut label, ' ');
    label.append(name.as_str());
    let shown = paint(style, label.as_str());
    let mut out = marker.clone();
    push_char(&mut out, ' ');
    out.append(shown.as_str());
    proof {
        let (p, q) = choose|p: Seq<char>, q: Seq<char>| shown@ == p + label@ + q;
        assert(out@ =~= marker@ + seq![' '] + p + icon@ + seq![' '] + name@ + q);
    }
    out
}

fn column(items: &Vec<Shown>, marker: &String, theme: &Theme) -> (r: Vec<String>)
    ensures
        r.len() == items.len(),
        forall|k: int|
            0 <= k < r.len() ==> entry_text(
                #[trigger] r.deep_view()[k],
                marker@,
                icon_of(items@[k], *theme),
                items@[k].name@,
            ),
{
    let mut out: Vec<String> = Vec::new();
    let mut i: usize = 0;
    while i < items.len()
        invariant
            i <= items.len(),
            out.len() == i,
            forall|k: int|
                0 <= k < i ==> entry_text(
                    #[trigger] out.deep_view()[k],
                    marker@,
                    icon_of(items@[k], *theme),
                    items@[k].name@,
                ),
        decreases items.len() - i,
    {
        let item = &items[i];
        let icon = if item.is_dir { &theme.folder_icon } else { &theme.file_icon };
        let c = entry_cell(marker, item.style, icon, &item.name);
        let ghost before = out.deep_view();
        out.push(c);
        proof {
            assert(out.deep_view() =~= before.push(c@));
            assert forall|k: int| 0 <= k < i + 1 implies entry_text(
                #[trigger] out.deep_view()[k],
                marker@,
                icon_of(items@[k], *theme),
                items@[k].name@,
            ) by {
                if k < i {
                    assert(out.deep_view()[k] == before[k]);
                }
            }
        }
        i = i + 1;
    }
    out
}

proof fn lemma_column_cell(cells: Seq<Seq<char>>, items: Seq<Shown>, i: int, marker: Seq<char>, mark: Seq<char>, filler: Seq<char>, theme: Theme)
    requires
        0 <= i,
        cells.len() == items.len(),
        painted(marker, mark),
        painted(filler, seq!['-', '-', '-']),
        forall|k: int|
            0 <= k < cells.len() ==> entry_text(
                #[trigger] cells[k],
                marker,
                icon_of(items[k], theme),
                items[k].name@,
            ),
    ensures
        column_cell(cell_at(cells, i, filler), items, i, mark, theme),
{
    if i < items.len() {
        let c = cells[i];
        assert(entry_text(c, marker, icon_of(items[i], theme), items[i].name@));
        let (p, q) = choose|p: Seq<char>, q: Seq<char>|
            c == marker + seq![' '] + p + icon_of(items[i], theme) + seq![' '] + items[i].name@ + q;
        let (a, b) = choose|a: Seq<char>, b: Seq<char>| marker == a + mark + b;
        assert(c =~= a + mark + b + seq![' '] + p + icon_of(items[i], theme) + seq![' '] + items[i].name@ + q);
    }
}

/// `line` is row `i` of the view: a row of the cell of the `i`-th added
/// name, marked `+`, and that of the `i`-th removed name, marked `-`.
pub open spec fn row_shows(line: Seq<char>, added: Seq<Shown>, removed: Seq<Shown>, i: int, theme: Theme) -> bool {
    exists|left: Seq<char>, right: Seq<char>|
        line == row_text(left, right) && column_cell(left, added, i, seq!['+'], theme) && column_cell(
            right,
            removed,
            i,
            seq!['-'],
            theme,
        )
}

/// The rows of the view: row `i` pairs the `i`-th added name, marked `+`,
/// with the `i`-th removed name, marked `-`; a column with fewer names is
/// filled with `---`.
pub fn render(added: &Vec<Shown>, removed: &Vec<Shown>, theme: &Theme) -> (r: Vec<String>)
    ensures
        r.len() == if added.len() >= removed.len() { added.len() } else { removed.len() },
        forall|i: int| 0 <= i < r.len() ==> row_shows(#[trigger] r[i]@, added@, removed@, i, *theme),
{
    proof {
        reveal_strlit("+");
        reveal_strlit("-");
        reveal_strlit("---");
    }
    let plus = paint(theme.added, "+");
    let minus = paint(theme.removed, "-");
    let filler = paint(theme.filler, "---");
    assert("+"@ =~= seq!['+']);
    assert("-"@ =~= seq!['-']);
    assert("---"@ =~= seq!['-', '-', '-']);
    let left = column(added, &plus, theme);
    let right = column(removed, &minus, theme);
    let rows = pair_rows(&left, &right, &filler);
    assert forall|i: int| 0 <= i < rows.len() implies row_shows(
        #[trigger] rows[i]@,
        added@,
        removed@,
        i,
        *theme,
    ) by {
        let l = cell_at(left.deep_view(), i, filler@);
        let rt = cell_at(right.deep_view(), i, filler@);
        lemma_column_cell(left.deep_view(), added@, i, plus@, seq!['+'], filler@, *theme);
        lemma_column_cell(right.deep_view(), removed@, i, minus@, seq!['-'], filler@, *theme);
        assert(rows[i]@ == row_text(l, rt));
        assert(column_cell(l, added@, i, seq!['+'], *theme));
        assert(column_cell(rt, removed@, i, seq!['-'], *theme));
    }
    rows
}

} // verus!
