//! The read side of the ledger: reconstructing display-ready watch
//! history, newest first, with the kind-specific fields of each row —
//! movie fields and episode fields are mutually exclusive per row. A
//! stored row whose kind fits neither is a recoverable
//! invariant-violation error, never an abort.

use vstd::prelude::*;

use crate::db::find_episode_row;
use crate::db::find_movie_row;
use crate::db::find_season_row;
use crate::db::find_show_row;
use crate::db::Catalog;
use crate::db::CatalogM;
use crate::db::MediaKind;
use crate::db::WatchHistoryRow;

verus! {

/// The kind-specific fields of one history entry.
#[derive(Debug, Clone)]
pub enum WatchHistoryEntryMedia {
    Movie { id: i32, title: String },
    Episode {
        episode_id: i32,
        episode_title: String,
        episode_number: i32,
        season_number: i32,
        show_id: i32,
        show_title: String,
    },
}

/// One display-ready history entry.
#[derive(Debug, Clone)]
pub struct WatchHistoryEntry {
    pub watched_at: i64,
    pub media: WatchHistoryEntryMedia,
}

/// Restricts the history to one movie, one episode, or all episodes of
/// one show.
#[derive(Clone, Copy, Debug, PartialEq, Eq, Structural)]
pub enum GetWatchHistoryFilter {
    Movie(i32),
    Episode(i32),
    Show(i32),
}

/// Reading the history failed.
#[derive(Clone, Copy, Debug, PartialEq, Eq, Structural)]
pub enum GetWatchHistoryError {
    /// A selected row's stored kind is neither Movie nor Episode, or its
    /// detail rows are missing: the row cannot be reconstructed.
    InvariantViolation,
}

/// Whether a ledger row is selected by the filter. A filtered query
/// only selects rows it can also reconstruct.
pub open spec fn row_matches_filter(
    c: CatalogM,
    row: WatchHistoryRow,
    filter: Option<GetWatchHistoryFilter>,
) -> bool {
    match filter {
        None => true,
        Some(GetWatchHistoryFilter::Movie(id)) => row.media_kind == MediaKind::Movie
            && row.media_id == id && c.movie_row(id) is Some,
        Some(GetWatchHistoryFilter::Episode(id)) => row.media_kind == MediaKind::Episode
            && row.media_id == id && c.episode_row(id) is Some,
        Some(GetWatchHistoryFilter::Show(id)) => row.media_kind == MediaKind::Episode && match c
            .episode_row(row.media_id) {
            Some(ep) => ep.show_id == id,
            None => false,
        },
    }
}

/// The ledger rows the filter selects, in ledger order.
pub open spec fn filter_rows(
    c: CatalogM,
    s: Seq<WatchHistoryRow>,
    filter: Option<GetWatchHistoryFilter>,
) -> Seq<WatchHistoryRow>
    decreases s.len(),
{
    if s.len() <= 0 {
        Seq::empty()
    } else {
        let rest = filter_rows(c, s.drop_first(), filter);
        if row_matches_filter(c, s[0], filter) {
            seq![s[0]] + rest
        } else {
            rest
        }
    }
}

/// Inserting a row into a list sorted by timestamp descending, keeping
/// it sorted: the row goes in front of the first strictly older entry.
pub open spec fn insert_desc(row: WatchHistoryRow, s: Seq<WatchHistoryRow>) -> Seq<WatchHistoryRow>
    decreases s.len(),
{
    if s.len() <= 0 {
        seq![row]
    } else if row.watched_at >= s[0].watched_at {
        seq![row] + s
    } else {
        seq![s[0]] + insert_desc(row, s.drop_first())
    }
}

/// Sorting by timestamp descending, one insertion at a time, front to
/// back.
pub open spec fn sort_desc(s: Seq<WatchHistoryRow>) -> Seq<WatchHistoryRow>
    decreases s.len(),
{
    if s.len() <= 0 {
        Seq::empty()
    } else {
        insert_desc(s.last(), sort_desc(s.drop_last()))
    }
}

/// Newest first.
pub open spec fn sorted_desc(s: Seq<WatchHistoryRow>) -> bool {
    forall|i: int, j: int|
        0 <= i < j < s.len() ==> (#[trigger] s[i]).watched_at >= (#[trigger] s[j]).watched_at
}

/// The rows the query returns, in order: the selected rows, sorted by
/// timestamp descending, cut to the limit.
pub open spec fn history_query(
    c: CatalogM,
    limit: int,
    filter: Option<GetWatchHistoryFilter>,
) -> Seq<WatchHistoryRow> {
    let sorted = sort_desc(filter_rows(c, c.watch_history, filter));
    if limit < sorted.len() {
        sorted.subrange(0, limit)
    } else {
        sorted
    }
}

/// The display-ready reconstruction of one ledger row, when the stored
/// kind is Movie or Episode and the detail rows it needs exist.
pub open spec fn project_row(c: CatalogM, row: WatchHistoryRow) -> Option<WatchHistoryEntryMedia> {
    match row.media_kind {
        MediaKind::Movie => match c.movie_row(row.media_id) {
            Some(mr) => Some(WatchHistoryEntryMedia::Movie { id: mr.id, title: mr.title }),
            None => None,
        },
        MediaKind::Episode => match c.episode_row(row.media_id) {
            Some(ep) => match (c.season_row(ep.season_id), c.show_row(ep.show_id)) {
                (Some(se), Some(shr)) => Some(
                    WatchHistoryEntryMedia::Episode {
                        episode_id: ep.id,
                        episode_title: ep.title,
                        episode_number: ep.number,
                        season_number: se.number,
                        show_id: shr.id,
                        show_title: shr.title,
                    },
                ),
                _ => None,
            },
            None => None,
        },
        _ => None,
    }
}

// ---------------------------------------------------------------------
// Lemmas about the order
// ---------------------------------------------------------------------

pub proof fn lemma_insert_desc_sorted(row: WatchHistoryRow, s: Seq<WatchHistoryRow>)
    requires
        sorted_desc(s),
    ensures
        sorted_desc(insert_desc(row, s)),
        insert_desc(row, s).len() == s.len() + 1,
    decreases s.len(),
{
    if s.len() > 0 && row.watched_at < s[0].watched_at {
        assert forall|i: int, j: int| 0 <= i < j < s.drop_first().len() implies (
        #[trigger] s.drop_first()[i]).watched_at >= (#[trigger] s.drop_first()[j]).watched_at by {
            assert(s.drop_first()[i] == s[i + 1] && s.drop_first()[j] == s[j + 1]);
        }
        lemma_insert_desc_sorted(row, s.drop_first());
        let t = seq![s[0]] + insert_desc(row, s.drop_first());
        assert forall|i: int, j: int| 0 <= i < j < t.len() implies (#[trigger] t[i]).watched_at
            >= (#[trigger] t[j]).watched_at by {
            if i == 0 {
                // everything in the inserted tail is row or an element
                // of s, both at most s[0]
                lemma_insert_desc_elements(row, s.drop_first(), j - 1);
            }
        }
    }
}

/// Every element of the inserted list is the row or an element of the
/// original.
pub proof fn lemma_insert_desc_elements(row: WatchHistoryRow, s: Seq<WatchHistoryRow>, k: int)
    requires
        0 <= k < insert_desc(row, s).len(),
    ensures
        insert_desc(row, s)[k] == row || exists|i: int|
            0 <= i < s.len() && #[trigger] s[i] == insert_desc(row, s)[k],
    decreases s.len(),
{
    if s.len() > 0 && row.watched_at < s[0].watched_at {
        if k > 0 {
            lemma_insert_desc_elements(row, s.drop_first(), k - 1);
            let t = insert_desc(row, s.drop_first());
            if t[k - 1] != row {
                let i = choose|i: int|
                    0 <= i < s.drop_first().len() && #[trigger] s.drop_first()[i] == t[k - 1];
                assert(s[i + 1] == t[k - 1]);
            }
        } else {
            assert(s[0] == insert_desc(row, s)[0]);
        }
    } else {
        if k == 0 {
        } else {
            assert(s[k - 1] == insert_desc(row, s)[k]);
        }
    }
}

pub proof fn lemma_sort_desc_sorted(s: Seq<WatchHistoryRow>)
    ensures
        sorted_desc(sort_desc(s)),
        sort_desc(s).len() == s.len(),
    decreases s.len(),
{
    if s.len() > 0 {
        lemma_sort_desc_sorted(s.drop_last());
        lemma_insert_desc_sorted(s.last(), sort_desc(s.drop_last()));
    }
}

/// Scanning the suffix that starts at `i` either keeps `s[i]` or drops
/// it, and continues with the suffix that starts at `i + 1`.
pub proof fn lemma_filter_rows_skip_step(
    c: CatalogM,
    s: Seq<WatchHistoryRow>,
    filter: Option<GetWatchHistoryFilter>,
    i: int,
)
    requires
        0 <= i < s.len(),
    ensures
        filter_rows(c, s.skip(i), filter) == if row_matches_filter(c, s[i], filter) {
            seq![s[i]] + filter_rows(c, s.skip(i + 1), filter)
        } else {
            filter_rows(c, s.skip(i + 1), filter)
        },
{
    let t = s.skip(i);
    assert(t[0] == s[i]);
    assert(t.drop_first() =~= s.skip(i + 1));
}

/// Inserting at the position the scan found is the specified sorted
/// insertion.
pub proof fn lemma_insert_desc_at(s: Seq<WatchHistoryRow>, row: WatchHistoryRow, j: int)
    requires
        0 <= j <= s.len(),
        forall|k: int| 0 <= k < j ==> (#[trigger] s[k]).watched_at > row.watched_at,
        j < s.len() ==> s[j].watched_at <= row.watched_at,
    ensures
        insert_desc(row, s) == s.insert(j, row),
    decreases s.len(),
{
    if s.len() == 0 {
        assert(insert_desc(row, s) =~= s.insert(0, row));
    } else if j == 0 {
        assert(insert_desc(row, s) =~= s.insert(0, row));
    } else {
        assert(s[0].watched_at > row.watched_at);
        assert forall|k: int| 0 <= k < j - 1 implies (
        #[trigger] s.drop_first()[k]).watched_at > row.watched_at by {
            assert(s.drop_first()[k] == s[k + 1]);
        }
        if j - 1 < s.drop_first().len() {
            assert(s.drop_first()[j - 1] == s[j]);
        }
        lemma_insert_desc_at(s.drop_first(), row, j - 1);
        assert(seq![s[0]] + s.drop_first().insert(j - 1, row) =~= s.insert(j, row));
    }
}

/// What the query returns is sorted newest first.
pub proof fn lemma_history_query_sorted(
    c: CatalogM,
    limit: int,
    filter: Option<GetWatchHistoryFilter>,
)
    requires
        0 <= limit,
    ensures
        sorted_desc(history_query(c, limit, filter)),
{
    lemma_sort_desc_sorted(filter_rows(c, c.watch_history, filter));
    let sorted = sort_desc(filter_rows(c, c.watch_history, filter));
    if limit < sorted.len() {
        let cut = sorted.subrange(0, limit);
        assert forall|i: int, j: int| 0 <= i < j < cut.len() implies (#[trigger] cut[i]).watched_at
            >= (#[trigger] cut[j]).watched_at by {
            assert(cut[i] == sorted[i] && cut[j] == sorted[j]);
        }
    }
}

// ---------------------------------------------------------------------
// The executable query
// ---------------------------------------------------------------------

/// Whether one ledger row is selected by the filter.
fn row_matches(
    catalog: &Catalog,
    row: &WatchHistoryRow,
    filter: &Option<GetWatchHistoryFilter>,
) -> (r: bool)
    ensures
        r == row_matches_filter(catalog@, *row, *filter),
{
    match filter {
        None => true,
        Some(GetWatchHistoryFilter::Movie(id)) => row.media_kind == MediaKind::Movie
            && row.media_id == *id && find_movie_row(catalog, *id).is_some(),
        Some(GetWatchHistoryFilter::Episode(id)) => row.media_kind == MediaKind::Episode
            && row.media_id == *id && find_episode_row(catalog, *id).is_some(),
        Some(GetWatchHistoryFilter::Show(id)) => row.media_kind == MediaKind::Episode && (
        match find_episode_row(catalog, row.media_id) {
            Some(ep) => ep.show_id == *id,
            None => false,
        }),
    }
}

/// Inserts a row into a list kept sorted newest first.
fn insert_row_desc(sorted: &mut Vec<WatchHistoryRow>, row: WatchHistoryRow)
    ensures
        final(sorted)@ == insert_desc(row, old(sorted)@),
{
    let n = sorted.len();
    let mut j: usize = 0;
    while j < n && sorted[j].watched_at > row.watched_at
        invariant
            j <= n,
            n == sorted.len(),
            sorted@ == old(sorted)@,
            forall|k: int| 0 <= k < j ==> (#[trigger] sorted@[k]).watched_at > row.watched_at,
        decreases n - j,
    {
        j += 1;
    }
    proof {
        lemma_insert_desc_at(sorted@, row, j as int);
    }
    sorted.insert(j, row);
}

/// The watch history, reconstructed for display: the rows the filter
/// selects, newest first, at most `limit` of them, each with its
/// kind-specific fields. A selected row that cannot be reconstructed —
/// its stored kind is neither Movie nor Episode, or a detail row is
/// missing — is a recoverable `InvariantViolation`.
#[verifier::loop_isolation(false)]
pub fn get_watch_history(
    catalog: &Catalog,
    limit: usize,
    filter_opt: Option<GetWatchHistoryFilter>,
) -> (r: Result<Vec<WatchHistoryEntry>, GetWatchHistoryError>)
    ensures
        match r {
            Ok(entries) => ({
                let rows = history_query(catalog@, limit as int, filter_opt);
                &&& entries@.len() == rows.len()
                &&& forall|k: int|
                    0 <= k < rows.len() ==> #[trigger] project_row(catalog@, rows[k]) is Some
                        && entries@[k] == (WatchHistoryEntry {
                        watched_at: rows[k].watched_at,
                        media: project_row(catalog@, rows[k])->Some_0,
                    })
                &&& forall|i: int, j: int|
                    0 <= i < j < entries@.len() ==> (#[trigger] entries@[i]).watched_at >= (
                    #[trigger] entries@[j]).watched_at
            }),
            Err(e) => ({
                let rows = history_query(catalog@, limit as int, filter_opt);
                &&& e == GetWatchHistoryError::InvariantViolation
                &&& exists|k: int|
                    0 <= k < rows.len() && #[trigger] project_row(catalog@, rows[k]) is None
            }),
        },
{
    // select
    let ghost all = catalog@.watch_history;
    let mut selected: Vec<WatchHistoryRow> = Vec::new();
    let n = catalog.watch_history.len();
    let mut i: usize = 0;
    proof {
        assert(all.skip(0) =~= all);
    }
    while i < n
        invariant
            i <= n,
            n == catalog.watch_history.len(),
            filter_rows(catalog@, all, filter_opt) == selected@ + filter_rows(
                catalog@,
                all.skip(i as int),
                filter_opt,
            ),
        decreases n - i,
    {
        let row = catalog.watch_history[i];
        proof {
            lemma_filter_rows_skip_step(catalog@, all, filter_opt, i as int);
        }
        if row_matches(catalog, &row, &filter_opt) {
            let ghost before = selected@;
            selected.push(row);
            proof {
                assert(before + (seq![all[i as int]] + filter_rows(
                    catalog@,
                    all.skip(i as int + 1),
                    filter_opt,
                )) =~= selected@ + filter_rows(catalog@, all.skip(i as int + 1), filter_opt));
            }
        }
        i += 1;
    }
    proof {
        assert(all.skip(n as int) =~= Seq::<WatchHistoryRow>::empty());
        assert(filter_rows(catalog@, all.skip(n as int), filter_opt) =~= Seq::<
            WatchHistoryRow,
        >::empty());
        assert(selected@ + Seq::<WatchHistoryRow>::empty() =~= selected@);
        assert(filter_rows(catalog@, all, filter_opt) == selected@);
    }

    // order newest first
    let ghost picked = selected@;
    let mut sorted: Vec<WatchHistoryRow> = Vec::new();
    let m = selected.len();
    let mut i2: usize = 0;
    proof {
        assert(picked.take(0) =~= Seq::<WatchHistoryRow>::empty());
    }
    while i2 < m
        invariant
            i2 <= m,
            m == selected.len(),
            selected@ == picked,
            sorted@ == sort_desc(picked.take(i2 as int)),
        decreases m - i2,
    {
        let row = selected[i2];
        proof {
            assert(picked.take(i2 as int + 1).drop_last() =~= picked.take(i2 as int));
            assert(picked.take(i2 as int + 1).last() == picked[i2 as int]);
        }
        insert_row_desc(&mut sorted, row);
        i2 += 1;
    }
    proof {
        assert(picked.take(m as int) =~= picked);
    }

    // cut to the limit
    if limit < sorted.len() {
        sorted.truncate(limit);
    }
    let ghost rows = history_query(catalog@, limit as int, filter_opt);
    proof {
        assert(sorted@ == rows);
    }

    // reconstruct
    let mut entries: Vec<WatchHistoryEntry> = Vec::new();
    let total = sorted.len();
    let mut i3: usize = 0;
    while i3 < total
        invariant
            i3 <= total,
            total == sorted.len(),
            sorted@ == rows,
            entries@.len() == i3,
            forall|k: int|
                0 <= k < i3 ==> #[trigger] project_row(catalog@, rows[k]) is Some && entries@[k]
                    == (WatchHistoryEntry {
                    watched_at: rows[k].watched_at,
                    media: project_row(catalog@, rows[k])->Some_0,
                }),
        decreases total - i3,
    {
        let row = sorted[i3];
        let media = match row.media_kind {
            MediaKind::Movie => match find_movie_row(catalog, row.media_id) {
                Some(mr) => WatchHistoryEntryMedia::Movie { id: mr.id, title: mr.title },
                None => {
                    proof {
                        assert(project_row(catalog@, rows[i3 as int]) is None);
                    }
                    return Err(GetWatchHistoryError::InvariantViolation);
                },
            },
            MediaKind::Episode => match find_episode_row(catalog, row.media_id) {
                Some(ep) => {
                    let season = find_season_row(catalog, ep.season_id);
                    let show = find_show_row(catalog, ep.show_id);
                    match (season, show) {
                        (Some(se), Some(shr)) => WatchHistoryEntryMedia::Episode {
                            episode_id: ep.id,
                            episode_title: ep.title,
                            episode_number: ep.number,
                            season_number: se.number,
                            show_id: shr.id,
                            show_title: shr.title,
                        },
                        _ => {
                            proof {
                                assert(project_row(catalog@, rows[i3 as int]) is None);
                            }
                            return Err(GetWatchHistoryError::InvariantViolation);
                        },
                    }
                },
                None => {
                    proof {
                        assert(project_row(catalog@, rows[i3 as int]) is None);
                    }
                    return Err(GetWatchHistoryError::InvariantViolation);
                },
            },
            _ => {
                proof {
                    assert(project_row(catalog@, rows[i3 as int]) is None);
                }
                return Err(GetWatchHistoryError::InvariantViolation);
            },
        };
        entries.push(WatchHistoryEntry { watched_at: row.watched_at, media });
        i3 += 1;
    }
    proof {
        lemma_history_query_sorted(catalog@, limit as int, filter_opt);
        assert forall|a: int, b: int| 0 <= a < b < entries@.len() implies (
        #[trigger] entries@[a]).watched_at >= (#[trigger] entries@[b]).watched_at by {
            assert(project_row(catalog@, rows[a]) is Some);
            assert(project_row(catalog@, rows[b]) is Some);
            assert(rows[a].watched_at >= rows[b].watched_at);
        }
    }
    Ok(entries)
}

} // verus!
