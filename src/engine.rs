//! One comparison of a directory listing against the stored snapshot, and
//! the decision whether to replace that snapshot.
use vstd::prelude::*;
use crate::diff::{minus, difference, lemma_minus};
use crate::snapshot::{Snapshot, SnapshotModel, Corruption, load_snapshot, load_text};

verus! {

/// Seconds in a day.
pub const SECONDS_PER_DAY: u64 = 86400;

/// What one comparison reports, and what it asks to be stored.
pub struct Report {
    /// No snapshot was stored before: this run stores the first one and
    /// compares nothing.
    pub first_run: bool,
    /// Names in the listing that the snapshot lacks.
    pub added: Vec<String>,
    /// Names in the snapshot that the listing lacks.
    pub removed: Vec<String>,
    /// A change was found on a stale snapshot, which is now replaced.
    pub refreshed: bool,
    /// The snapshot to store, if any.
    pub save: Option<Snapshot>,
}

pub ghost struct ReportModel {
    pub first_run: bool,
    pub added: Seq<Seq<char>>,
    pub removed: Seq<Seq<char>>,
    pub refreshed: bool,
    pub save: Option<SnapshotModel>,
}

pub open spec fn snapshot_model(s: Option<Snapshot>) -> Option<SnapshotModel> {
    match s {
        Some(s) => Some(s@),
        None => None,
    }
}

impl View for Report {
    type V = ReportModel;

    open spec fn view(&self) -> ReportModel {
        ReportModel {
            first_run: self.first_run,
            added: self.added.deep_view(),
            removed: self.removed.deep_view(),
            refreshed: self.refreshed,
            save: snapshot_model(self.save),
        }
    }
}

/// A snapshot is stale when it was captured on another day than today, or
/// when a refresh is forced.
pub open spec fn stale(captured_at: int, today: int, force: bool) -> bool {
    captured_at != today || force
}

/// The outcome of comparing `listing`, on day `today`, with what is stored.
pub open spec fn run_model(
    listing: Seq<Seq<char>>,
    stored: Option<SnapshotModel>,
    today: int,
    force: bool,
) -> ReportModel {
    let current = SnapshotModel { captured_at: today, entries: listing };
    match stored {
        None => ReportModel {
            first_run: true,
            added: Seq::empty(),
            removed: Seq::empty(),
            refreshed: false,
            save: Some(current),
        },
        Some(s) => {
            let added = minus(listing, s.entries);
            let removed = minus(s.entries, listing);
            let refreshed = (added.len() > 0 || removed.len() > 0) && stale(
                s.captured_at,
                today,
                force,
            );
            ReportModel {
                first_run: false,
                added,
                removed,
                refreshed,
                save: if refreshed { Some(current) } else { None },
            }
        },
    }
}

/// Comparing a listing with a snapshot of the same names finds nothing
/// added and nothing removed, and stores nothing.
pub proof fn lemma_same_names_no_change(listing: Seq<Seq<char>>, captured_at: int, today: int, force: bool)
    ensures
        run_model(listing, Some(SnapshotModel { captured_at, entries: listing }), today, force).added
            == Seq::<Seq<char>>::empty(),
        run_model(listing, Some(SnapshotModel { captured_at, entries: listing }), today, force).removed
            == Seq::<Seq<char>>::empty(),
        run_model(listing, Some(SnapshotModel { captured_at, entries: listing }), today, force).save
            is None,
{
    lemma_minus(listing, listing);
    let m = minus(listing, listing);
    if m.len() > 0 {
        assert(m.contains(m[0]));
    }
    assert(m =~= Seq::<Seq<char>>::empty());
}

/// No name is both added and removed.
pub proof fn lemma_added_removed_disjoint(listing: Seq<Seq<char>>, stored: SnapshotModel, today: int, force: bool)
    ensures
        forall|x: Seq<char>|
            !(#[trigger] run_model(listing, Some(stored), today, force).added.contains(x) && run_model(
                listing,
                Some(stored),
                today,
                force,
            ).removed.contains(x)),
{
    lemma_minus(listing, stored.entries);
    lemma_minus(stored.entries, listing);
}

/// What the next run compares against: the snapshot this run stored, or
/// else the one that was stored before.
pub open spec fn stored_after(stored: Option<SnapshotModel>, r: ReportModel) -> Option<SnapshotModel> {
    match r.save {
        Some(m) => Some(m),
        None => stored,
    }
}

/// Running twice on the same day over the same listing, without forcing,
/// reports the same names both times, and the second run stores nothing;
/// this holds whenever the first run did not replace the snapshot (a run
/// that does starts the next one from the new listing).
pub proof fn lemma_second_run_repeats(listing: Seq<Seq<char>>, stored: Option<SnapshotModel>, today: int)
    requires
        !run_model(listing, stored, today, false).refreshed,
    ensures
        run_model(listing, stored_after(stored, run_model(listing, stored, today, false)), today, false).added
            == run_model(listing, stored, today, false).added,
        run_model(listing, stored_after(stored, run_model(listing, stored, today, false)), today, false).removed
            == run_model(listing, stored, today, false).removed,
        run_model(listing, stored_after(stored, run_model(listing, stored, today, false)), today, false).save
            is None,
{
    if stored is None {
        lemma_same_names_no_change(listing, today, today, false);
    }
}

/// Where the listing and the snapshot differ and no refresh is forced, the
/// snapshot is replaced exactly when it was captured on another day.
pub proof fn lemma_staleness_gate(listing: Seq<Seq<char>>, stored: SnapshotModel, today: int)
    requires
        minus(listing, stored.entries).len() > 0 || minus(stored.entries, listing).len() > 0,
    ensures
        run_model(listing, Some(stored), today, false).refreshed == (stored.captured_at != today),
        run_model(listing, Some(stored), today, false).save is Some == (stored.captured_at != today),
{
}

/// The whole days since the epoch at `secs` seconds since the epoch.
pub fn day_of(secs: u64) -> (r: i64)
    ensures
        r as int == secs as int / SECONDS_PER_DAY as int,
{
    (secs / SECONDS_PER_DAY) as i64
}

/// Whether a snapshot captured on `captured_at` is to be replaced today.
pub fn is_stale(captured_at: i64, today: i64, force: bool) -> (r: bool)
    ensures
        r == stale(captured_at as int, today as int, force),
{
    captured_at != today || force
}

fn copy_names(v: &Vec<String>) -> (r: Vec<String>)
    ensures
        r.deep_view() == v.deep_view(),
{
    let mut out: Vec<String> = Vec::new();
    let mut i: usize = 0;
    while i < v.len()
        invariant
            i <= v.len(),
            out.deep_view() == v.deep_view().take(i as int),
        decreases v.len() - i,
    {
        let ghost before = out.deep_view();
        let s = v[i].clone();
        out.push(s);
        assert(out.deep_view() =~= before.push(s@));
        assert(out.deep_view() =~= v.deep_view().take(i + 1));
        i = i + 1;
    }
    assert(v.deep_view().take(v.len() as int) =~= v.deep_view());
    out
}

/// Compares `listing` with the stored snapshot, if there is one, on day
/// `today`, and decides what to store.
pub fn run(listing: &Vec<String>, stored: Option<&Snapshot>, today: i64, force: bool) -> (r: Report)
    ensures
        r@ == run_model(
            listing.deep_view(),
            match stored {
                Some(s) => Some(s@),
                None => None,
            },
            today as int,
            force,
        ),
        listing.deep_view().no_duplicates() ==> (r.save matches Some(s) ==> s.wf()),
{
    match stored {
        None => {
            let r = Report {
                first_run: true,
                added: Vec::new(),
                removed: Vec::new(),
                refreshed: false,
                save: Some(Snapshot { captured_at: today, entries: copy_names(listing) }),
            };
            assert(r.added.deep_view() =~= Seq::<Seq<char>>::empty());
            assert(r.removed.deep_view() =~= Seq::<Seq<char>>::empty());
            r
        },
        Some(s) => {
            let added = difference(listing, &s.entries);
            let removed = difference(&s.entries, listing);
            let refreshed = (added.len() > 0 || removed.len() > 0) && is_stale(
                s.captured_at,
                today,
                force,
            );
            let save = if refreshed {
                Some(Snapshot { captured_at: today, entries: copy_names(listing) })
            } else {
                None
            };
            Report { first_run: false, added, removed, refreshed, save }
        },
    }
}

/// Compares `listing` with the snapshot stored as `cache`, the text of the
/// cache file, or `None` where there is no such file. Text that holds no
/// snapshot is read as the fallback, and the reason is returned beside the
/// report.
pub fn run_with_cache(listing: &Vec<String>, cache: Option<&str>, today: i64, force: bool) -> (r: (
    Report,
    Option<Corruption>,
))
    ensures
        r.0@ == run_model(
            listing.deep_view(),
            match cache {
                Some(t) => Some(load_text(t@).0),
                None => None,
            },
            today as int,
            force,
        ),
        r.1 == (match cache {
            Some(t) => load_text(t@).1,
            None => None,
        }),
{
    match cache {
        None => (run(listing, None, today, force), None),
        Some(text) => {
            let (s, problem) = load_snapshot(text);
            (run(listing, Some(&s), today, force), problem)
        },
    }
}

} // verus!
