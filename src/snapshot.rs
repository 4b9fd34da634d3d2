//! The stored snapshot: a day-count and the entry names seen that day,
//! kept as text in two sections, `[TIME]` and `[FILES]`.
use vstd::prelude::*;
use crate::number::{format_int, int_text, int_value, parse_int, fits_i64, lemma_int_text_value, lemma_nat_text, is_digit};
use crate::text::{join_lines, split_lines, is_line, lines_of, join_with_newlines, lemma_split_join};

verus! {

/// A directory's entry names, with the day on which they were captured.
pub struct Snapshot {
    /// Whole days since the Unix epoch.
    pub captured_at: i64,
    /// Entry names, in the order in which they are stored.
    pub entries: Vec<String>,
}

/// What a snapshot means: a day and a sequence of names.
pub ghost struct SnapshotModel {
    pub captured_at: int,
    pub entries: Seq<Seq<char>>,
}

impl View for Snapshot {
    type V = SnapshotModel;

    open spec fn view(&self) -> SnapshotModel {
        SnapshotModel { captured_at: self.captured_at as int, entries: self.entries.deep_view() }
    }
}

impl Snapshot {
    /// A snapshot lists each name at most once.
    pub open spec fn wf(&self) -> bool {
        self@.entries.no_duplicates()
    }
}

/// Why stored text is not a snapshot.
#[derive(Debug, Clone, Copy, PartialEq, Eq, Structural)]
pub enum Corruption {
    /// No `[TIME]` line.
    MissingTime,
    /// The line after `[TIME]` is missing or is not an integer of 64 bits.
    BadTime,
    /// No `[FILES]` line after the time value.
    MissingFiles,
}

pub open spec fn time_marker() -> Seq<char> {
    seq!['[', 'T', 'I', 'M', 'E', ']']
}

pub open spec fn files_marker() -> Seq<char> {
    seq!['[', 'F', 'I', 'L', 'E', 'S', ']']
}

/// The first index at or after `from` where `ls` holds `x`.
pub open spec fn find_from(ls: Seq<Seq<char>>, x: Seq<char>, from: int) -> Option<int>
    decreases ls.len() - from,
{
    if from < 0 || from >= ls.len() {
        None
    } else if ls[from] == x {
        Some(from)
    } else {
        find_from(ls, x, from + 1)
    }
}

/// The lines after `[FILES]` as entry names: one final empty line, which a
/// trailing newline leaves, is no entry.
pub open spec fn entries_of(rest: Seq<Seq<char>>) -> Seq<Seq<char>> {
    if rest.len() > 0 && rest.last().len() == 0 {
        rest.drop_last()
    } else {
        rest
    }
}

/// The snapshot that `text` holds, or why it holds none.
pub open spec fn parse_text(text: Seq<char>) -> Result<SnapshotModel, Corruption> {
    let ls = split_lines(text);
    match find_from(ls, time_marker(), 0) {
        None => Err(Corruption::MissingTime),
        Some(t) => if t + 1 >= ls.len() || int_value(ls[t + 1]) is None || !fits_i64(
            int_value(ls[t + 1])->0,
        ) {
            Err(Corruption::BadTime)
        } else {
            match find_from(ls, files_marker(), t + 2) {
                None => Err(Corruption::MissingFiles),
                Some(f) => Ok(
                    SnapshotModel {
                        captured_at: int_value(ls[t + 1])->0,
                        entries: entries_of(ls.subrange(f + 1, ls.len() as int)),
                    },
                ),
            }
        },
    }
}

/// The lines below `[FILES]` that store `entries`: the names, or one empty
/// line when there are none.
pub open spec fn body_lines(entries: Seq<Seq<char>>) -> Seq<Seq<char>> {
    if entries.len() == 0 {
        seq![Seq::empty()]
    } else {
        entries
    }
}

/// The text that stores `m`.
pub open spec fn snapshot_text(m: SnapshotModel) -> Seq<char> {
    join_lines(seq![time_marker(), int_text(m.captured_at), files_marker()] + body_lines(m.entries))
}

/// A name that the text form can store: not empty, and without a newline.
pub open spec fn storable_name(s: Seq<char>) -> bool {
    s.len() > 0 && is_line(s)
}

/// The snapshot that was lost to corruption is read as captured on day
/// zero with no entries, which is never today.
pub open spec fn fallback() -> SnapshotModel {
    SnapshotModel { captured_at: 0, entries: Seq::empty() }
}

/// What loading `text` yields: its snapshot, or the fallback and the reason.
pub open spec fn load_text(text: Seq<char>) -> (SnapshotModel, Option<Corruption>) {
    match parse_text(text) {
        Ok(m) => (m, None),
        Err(e) => (fallback(), Some(e)),
    }
}

proof fn lemma_find_skip(ls: Seq<Seq<char>>, x: Seq<char>, from: int, i: int)
    requires
        0 <= from <= i,
        forall|j: int| from <= j < i && j < ls.len() ==> ls[j] != x,
    ensures
        find_from(ls, x, from) == find_from(ls, x, i),
    decreases i - from,
{
    if from < i {
        lemma_find_skip(ls, x, from + 1, i);
    }
}

proof fn lemma_find_found(ls: Seq<Seq<char>>, x: Seq<char>, from: int)
    ensures
        find_from(ls, x, from) matches Some(i) ==> 0 <= from <= i < ls.len() && ls[i] == x,
    decreases ls.len() - from,
{
    if 0 <= from < ls.len() && ls[from] != x {
        lemma_find_found(ls, x, from + 1);
    }
}

/// Storing a snapshot and reading the text back gives the same snapshot,
/// for every snapshot whose names the text form can store.
pub proof fn lemma_round_trip(m: SnapshotModel)
    requires
        fits_i64(m.captured_at),
        forall|i: int| 0 <= i < m.entries.len() ==> storable_name(#[trigger] m.entries[i]),
    ensures
        parse_text(snapshot_text(m)) == Ok::<SnapshotModel, Corruption>(m),
        load_text(snapshot_text(m)) == (m, None::<Corruption>),
{
    let head = seq![time_marker(), int_text(m.captured_at), files_marker()];
    let ls = head + body_lines(m.entries);
    let day = int_text(m.captured_at);
    assert(is_line(day)) by {
        if m.captured_at < 0 {
            lemma_nat_text((-m.captured_at) as nat);
            assert(day == seq!['-'] + crate::number::nat_text((-m.captured_at) as nat));
        } else {
            lemma_nat_text(m.captured_at as nat);
        }
        if day.contains('\n') {
            let k = choose|k: int| 0 <= k < day.len() && day[k] == '\n';
            if m.captured_at < 0 && k > 0 {
                assert(day[k] == crate::number::nat_text((-m.captured_at) as nat)[k - 1]);
                assert(is_digit(crate::number::nat_text((-m.captured_at) as nat)[k - 1]));
            } else if m.captured_at >= 0 {
                assert(is_digit(day[k]));
            }
        }
    }
    assert(is_line(time_marker())) by {
        if time_marker().contains('\n') {
            let k = choose|k: int| 0 <= k < time_marker().len() && time_marker()[k] == '\n';
        }
    }
    assert(is_line(files_marker())) by {
        if files_marker().contains('\n') {
            let k = choose|k: int| 0 <= k < files_marker().len() && files_marker()[k] == '\n';
        }
    }
    assert(is_line(Seq::<char>::empty())) by {
        if Seq::<char>::empty().contains('\n') {
            let k = choose|k: int| 0 <= k < 0 && Seq::<char>::empty()[k] == '\n';
        }
    }
    assert forall|i: int| 0 <= i < ls.len() implies is_line(#[trigger] ls[i]) by {
        if i >= 3 && m.entries.len() > 0 {
            assert(ls[i] == m.entries[i - 3]);
        }
    }
    lemma_split_join(ls);
    assert(split_lines(snapshot_text(m)) == ls);
    assert(ls[0] == time_marker());
    assert(find_from(ls, time_marker(), 0) == Some(0int));
    assert(ls[1] == day);
    lemma_int_text_value(m.captured_at);
    assert(ls[2] == files_marker());
    assert(find_from(ls, files_marker(), 2) == Some(2int));
    let rest = ls.subrange(3, ls.len() as int);
    assert(rest =~= body_lines(m.entries));
    if m.entries.len() > 0 {
        assert(storable_name(m.entries[m.entries.len() - 1]));
        assert(entries_of(rest) == m.entries);
    } else {
        assert(entries_of(rest) =~= m.entries);
    }
}

/// Text without a `[FILES]` line loads as the fallback snapshot, with the
/// reason beside it; loading never fails outright.
pub proof fn lemma_missing_files_falls_back(text: Seq<char>)
    requires
        !split_lines(text).contains(files_marker()),
    ensures
        load_text(text).0 == fallback(),
        load_text(text).1 is Some,
{
    let ls = split_lines(text);
    match find_from(ls, time_marker(), 0) {
        None => {},
        Some(t) => {
            lemma_find_found(ls, files_marker(), t + 2);
        },
    }
}

fn find_line(lines: &Vec<String>, x: &String, from: usize) -> (r: Option<usize>)
    ensures
        r matches Some(i) ==> i < lines.len() && find_from(lines.deep_view(), x@, from as int)
            == Some(i as int),
        r is None ==> find_from(lines.deep_view(), x@, from as int) is None,
{
    let mut i = from;
    while i < lines.len()
        invariant
            from <= i,
            forall|j: int| from <= j < i && j < lines.len() ==> lines.deep_view()[j] != x@,
        decreases lines.len() - i,
    {
        if lines[i] == *x {
            proof {
                lemma_find_skip(lines.deep_view(), x@, from as int, i as int);
            }
            return Some(i);
        }
        i = i + 1;
    }
    proof {
        lemma_find_skip(lines.deep_view(), x@, from as int, i as int);
    }
    None
}

/// Reads a snapshot from its text form.
pub fn parse_snapshot(text: &str) -> (r: Result<Snapshot, Corruption>)
    ensures
        r matches Ok(s) ==> parse_text(text@) == Ok::<SnapshotModel, Corruption>(s@),
        r matches Err(e) ==> parse_text(text@) == Err::<SnapshotModel, Corruption>(e),
{
    let lines = lines_of(text);
    let ghost ls = lines.deep_view();
    let time_mark = "[TIME]".to_owned();
    let files_mark = "[FILES]".to_owned();
    proof {
        reveal_strlit("[TIME]");
        reveal_strlit("[FILES]");
        assert(time_mark@ =~= time_marker());
        assert(files_mark@ =~= files_marker());
    }
    let t = match find_line(&lines, &time_mark, 0) {
        None => {
            return Err(Corruption::MissingTime);
        },
        Some(t) => t,
    };
    if t + 1 >= lines.len() {
        return Err(Corruption::BadTime);
    }
    let day = match parse_int(lines[t + 1].as_str()) {
        None => {
            return Err(Corruption::BadTime);
        },
        Some(d) => d,
    };
    let f = match find_line(&lines, &files_mark, t + 2) {
        None => {
            return Err(Corruption::MissingFiles);
        },
        Some(f) => f,
    };
    let mut entries: Vec<String> = Vec::new();
    let mut i = f + 1;
    while i < lines.len()
        invariant
            f + 1 <= i <= lines.len(),
            ls == lines.deep_view(),
            entries.deep_view() == ls.subrange(f + 1, i as int),
        decreases lines.len() - i,
    {
        let ghost before = entries.deep_view();
        let line = lines[i].clone();
        entries.push(line);
        proof {
            assert(entries.deep_view() =~= before.push(line@));
            assert(line@ == ls[i as int]);
            assert(entries.deep_view() =~= ls.subrange(f + 1, i + 1));
        }
        i = i + 1;
    }
    let n = entries.len();
    if n > 0 && entries[n - 1].as_str().is_empty() {
        entries.pop();
        proof {
            assert(entries.deep_view() =~= ls.subrange(f + 1, ls.len() as int).drop_last());
        }
    }
    Ok(Snapshot { captured_at: day, entries })
}

/// Reads a snapshot leniently: text that holds none reads as the fallback
/// snapshot, together with the reason.
pub fn load_snapshot(text: &str) -> (r: (Snapshot, Option<Corruption>))
    ensures
        (r.0@, r.1) == load_text(text@),
{
    match parse_snapshot(text) {
        Ok(s) => (s, None),
        Err(e) => {
            let s = Snapshot { captured_at: 0, entries: Vec::new() };
            assert(s@.entries =~= Seq::<Seq<char>>::empty());
            (s, Some(e))
        },
    }
}

/// Writes the text form of `s`.
pub fn format_snapshot(s: &Snapshot) -> (r: String)
    ensures
        r@ == snapshot_text(s@),
{
    let mut lines: Vec<String> = Vec::new();
    lines.push("[TIME]".to_owned());
    lines.push(format_int(s.captured_at));
    lines.push("[FILES]".to_owned());
    let mut i: usize = 0;
    while i < s.entries.len()
        invariant
            i <= s.entries.len(),
            lines.len() == 3 + i,
            lines.deep_view().subrange(3, 3 + i as int) == s.entries.deep_view().take(i as int),
            lines.deep_view()[0] == "[TIME]"@,
            lines.deep_view()[1] == int_text(s.captured_at as int),
            lines.deep_view()[2] == "[FILES]"@,
        decreases s.entries.len() - i,
    {
        let ghost before = lines.deep_view();
        let e = s.entries[i].clone();
        lines.push(e);
        proof {
            assert(lines.deep_view() =~= before.push(e@));
            assert(e@ == s.entries.deep_view()[i as int]);
            assert(lines.deep_view().subrange(3, 4 + i as int) =~= s.entries.deep_view().take(
                i + 1,
            ));
        }
        i = i + 1;
    }
    proof {
        reveal_strlit("[TIME]");
        reveal_strlit("[FILES]");
        assert(lines.deep_view()[0] == time_marker());
        assert(lines.deep_view()[2] == files_marker());
    }
    if s.entries.len() == 0 {
        let ghost before = lines.deep_view();
        lines.push(String::new());
        assert(lines.deep_view() =~= before.push(Seq::<char>::empty()));
    }
    proof {
        assert(s.entries.deep_view().take(s.entries.len() as int) =~= s.entries.deep_view());
        assert(lines.deep_view() =~= seq![time_marker(), int_text(s.captured_at as int), files_marker()]
            + body_lines(s@.entries));
    }
    join_with_newlines(&lines)
}

} // verus!
