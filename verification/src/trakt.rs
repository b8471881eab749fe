//! The reconciler and the bulk-import pipeline for a tracker-service
//! viewing-history export.
//!
//! Reconciliation maps an external record to a canonical entity by its
//! tracker id, creating it — and any missing ancestors — only when the
//! lookup misses; on a match nothing is ever updated, existing data
//! wins. Each imported record is one atomic unit: a failure while
//! creating its ancestors rolls the whole record back, while entities
//! reconciled by earlier records persist.

use vstd::prelude::*;

use crate::db::get_media_by_trakt_id;
use crate::db::get_season_by_show_and_number;
use crate::db::insert_list_item;
use crate::db::insert_list_item_m;
use crate::db::insert_watch_history;
use crate::db::insert_watch_history_m;
use crate::db::Catalog;
use crate::db::CatalogM;
use crate::db::InsertListItemError;
use crate::db::InsertWatchHistoryError;
use crate::db::Media;
use crate::db::MediaExternalId;
use crate::db::MediaKind;
use crate::db::SeasonRow;
use crate::db::WatchHistory;
use crate::text::season_title;
use crate::text::spec_season_title;
use crate::txn::extends_catalog;
use crate::txn::insert_episode;
use crate::txn::insert_episode_m;
use crate::txn::insert_movie;
use crate::txn::insert_movie_m;
use crate::txn::insert_season;
use crate::txn::insert_season_m;
use crate::txn::insert_show;
use crate::txn::insert_show_m;
use crate::txn::lemma_extends_refl;
use crate::txn::lemma_extends_trans;
use crate::txn::lemma_insert_episode_m_extends;
use crate::txn::lemma_insert_movie_m_extends;
use crate::txn::lemma_insert_season_m_extends;
use crate::txn::lemma_insert_show_m_extends;
use crate::txn::InsertEpisodeError;
use crate::txn::InsertMovieError;
use crate::txn::InsertSeasonError;
use crate::txn::InsertShowError;
use crate::txn::NewEpisode;
use crate::txn::NewMovie;
use crate::txn::NewSeason;
use crate::txn::NewShow;

verus! {

// ---------------------------------------------------------------------
// External records
// ---------------------------------------------------------------------

/// The identifier block every tracker record nests: the tracker's own
/// id is always present, the other namespaces are optional.
#[derive(Debug)]
pub struct TraktExternalIds {
    pub trakt: i32,
    pub slug: Option<String>,
    pub tvdb: Option<i32>,
    pub imdb: Option<String>,
    pub tmdb: Option<i32>,
}

impl TraktExternalIds {
    /// A field-for-field copy, proved equal to the original.
    pub fn duplicate(&self) -> (r: TraktExternalIds)
        ensures
            r == *self,
    {
        TraktExternalIds {
            trakt: self.trakt,
            slug: self.slug.clone(),
            tvdb: self.tvdb,
            imdb: self.imdb.clone(),
            tmdb: self.tmdb,
        }
    }
}

/// The external-identity mapping a tracker id block denotes.
pub open spec fn media_external_id_from(ids: TraktExternalIds) -> MediaExternalId {
    MediaExternalId {
        trakt_id: Some(ids.trakt),
        trakt_slug: ids.slug,
        tvdb_id: ids.tvdb,
        imdb_id: ids.imdb,
        tmdb_id: ids.tmdb,
    }
}

impl From<TraktExternalIds> for MediaExternalId {
    fn from(ids: TraktExternalIds) -> (r: MediaExternalId) {
        MediaExternalId {
            trakt_id: Some(ids.trakt),
            trakt_slug: ids.slug,
            tvdb_id: ids.tvdb,
            imdb_id: ids.imdb,
            tmdb_id: ids.tmdb,
        }
    }
}

impl vstd::std_specs::convert::FromSpecImpl<TraktExternalIds> for MediaExternalId {
    open spec fn obeys_from_spec() -> bool {
        true
    }

    open spec fn from_spec(ids: TraktExternalIds) -> MediaExternalId {
        media_external_id_from(ids)
    }
}

/// A movie record of the export.
#[derive(Debug)]
pub struct TraktMovie {
    pub title: String,
    pub year: Option<i32>,
    pub ids: TraktExternalIds,
}

/// An episode record of the export; the owning show travels beside it.
#[derive(Debug)]
pub struct TraktEpisode {
    pub season_number: i32,
    pub number: i32,
    pub title: String,
    pub ids: TraktExternalIds,
}

/// A show record of the export.
#[derive(Debug)]
pub struct TraktShow {
    pub title: String,
    pub year: Option<i32>,
    pub ids: TraktExternalIds,
}

/// A season record of the export.
#[derive(Debug)]
pub struct TraktSeason {
    pub number: i32,
    pub ids: TraktExternalIds,
}

/// A kind-discriminated record of the export.
#[derive(Debug)]
pub enum TraktMedia {
    Movie { movie: TraktMovie },
    Episode { episode: TraktEpisode, show: TraktShow },
    Show { show: TraktShow },
    Season { season: TraktSeason, show: TraktShow },
}

/// One watch-history record: what was watched, and when.
#[derive(Debug)]
pub struct WatchHistoryEntry {
    pub watched_at: i64,
    pub media: TraktMedia,
}

/// One watchlist record: what was listed, and when.
#[derive(Debug)]
pub struct WatchlistEntry {
    pub listed_at: i64,
    pub media: TraktMedia,
}

/// Why an import stopped. A failure on one record aborts the remaining
/// batch; records already imported persist.
#[derive(Clone, Copy, Debug, PartialEq, Eq, Structural)]
pub enum ImportError {
    /// A record variant that is not valid at this point, e.g. a show or
    /// season record inside a watch-history file.
    UnsupportedMediaType,
    Show(InsertShowError),
    Season(InsertSeasonError),
    Episode(InsertEpisodeError),
    Movie(InsertMovieError),
    WatchHistory(InsertWatchHistoryError),
    ListItem(InsertListItemError),
}

// ---------------------------------------------------------------------
// What the reconciler builds when a lookup misses
// ---------------------------------------------------------------------

pub open spec fn year_or_zero(year: Option<i32>) -> i32 {
    match year {
        Some(y) => y,
        None => 0,
    }
}

/// A show created from an export record: the fields the record carries,
/// nothing else.
pub open spec fn new_show_from_trakt(ts: TraktShow) -> NewShow {
    NewShow {
        title: ts.title,
        release_year: year_or_zero(ts.year),
        overview: None,
        tagline: None,
        episode_runtime: None,
        external_ids: Some(media_external_id_from(ts.ids)),
        seasons: None,
    }
}

/// A movie created from an export record.
pub open spec fn new_movie_from_trakt(tm: TraktMovie) -> NewMovie {
    NewMovie {
        title: tm.title,
        release_year: year_or_zero(tm.year),
        overview: None,
        tagline: None,
        runtime: None,
        external_ids: Some(media_external_id_from(tm.ids)),
    }
}

/// An episode created from an export record.
pub open spec fn new_episode_from_trakt(te: TraktEpisode) -> NewEpisode {
    NewEpisode {
        title: te.title,
        number: te.number,
        overview: None,
        runtime: None,
        external_ids: Some(media_external_id_from(te.ids)),
    }
}

/// The minimal placeholder season the reconciler creates when an export
/// carries no season-level external id: a synthesized title and no
/// overview.
pub open spec fn season_placeholder(title: String, number: i32) -> NewSeason {
    NewSeason { title, number, overview: None, external_ids: None, episodes: None }
}

// ---------------------------------------------------------------------
// Reconciliation, modelled
// ---------------------------------------------------------------------

/// Find-or-create a show by its tracker id. On a match the catalog is
/// untouched and the match is returned: existing data wins.
pub open spec fn reconcile_show_m(c: CatalogM, ts: TraktShow) -> Result<
    (CatalogM, Media),
    ImportError,
> {
    match c.media_by_trakt(ts.ids.trakt) {
        Some(m) => Ok((c, m)),
        None => match insert_show_m(c, new_show_from_trakt(ts)) {
            Ok((c1, m)) => Ok((c1, m)),
            Err(e) => Err(ImportError::Show(e)),
        },
    }
}

/// Find-or-create a movie by its tracker id.
pub open spec fn reconcile_movie_m(c: CatalogM, tm: TraktMovie) -> Result<
    (CatalogM, Media),
    ImportError,
> {
    match c.media_by_trakt(tm.ids.trakt) {
        Some(m) => Ok((c, m)),
        None => match insert_movie_m(c, new_movie_from_trakt(tm)) {
            Ok((c1, m)) => Ok((c1, m)),
            Err(e) => Err(ImportError::Movie(e)),
        },
    }
}

/// Find-or-create an episode of a resolved show and season by its
/// tracker id.
pub open spec fn reconcile_episode_only_m(
    c: CatalogM,
    show: Media,
    season: Media,
    te: TraktEpisode,
) -> Result<(CatalogM, Media), ImportError> {
    match c.media_by_trakt(te.ids.trakt) {
        Some(m) => Ok((c, m)),
        None => match insert_episode_m(c, show, season, new_episode_from_trakt(te)) {
            Ok((c1, m)) => Ok((c1, m)),
            Err(e) => Err(ImportError::Episode(e)),
        },
    }
}

/// Find-or-create a season of a resolved show by its number. Export
/// formats do not always carry season-level ids, so the lookup is by
/// (show, number); a miss creates a placeholder whose title is the
/// synthesized season title. Relational because the placeholder's title
/// string is chosen by the implementation, pinned up to its characters.
pub open spec fn reconcile_season_rel(
    pre: CatalogM,
    show: Media,
    number: i32,
    post: CatalogM,
    r: Result<Media, ImportError>,
) -> bool {
    match pre.season_by_show_and_number(show.id, number) {
        Some(row) => post == pre && r == Ok::<Media, ImportError>(
            Media { id: row.id, kind: MediaKind::Season },
        ),
        None => exists|t: String|
            {
                &&& (#[trigger] season_placeholder(t, number)).title@ == spec_season_title(number)
                &&& match insert_season_m(pre, show, season_placeholder(t, number)) {
                    Ok((c1, m)) => post == c1 && r == Ok::<Media, ImportError>(m),
                    Err(e) => post == pre && r == Err::<Media, ImportError>(ImportError::Season(e)),
                }
            },
    }
}

/// An episode record resolved as one atomic unit: show, then season,
/// then episode. A failure at any step leaves the catalog untouched —
/// ancestors created in the same call never persist without their
/// episode.
pub open spec fn episode_chain_steps(
    pre: CatalogM,
    tshow: TraktShow,
    te: TraktEpisode,
    post: CatalogM,
    r: Result<Media, ImportError>,
    c1: CatalogM,
    sh: Media,
    c2: CatalogM,
    rse: Result<Media, ImportError>,
) -> bool {
    &&& reconcile_show_m(pre, tshow) == Ok::<(CatalogM, Media), ImportError>((c1, sh))
    &&& reconcile_season_rel(c1, sh, te.season_number, c2, rse)
    &&& match rse {
        Err(e) => post == pre && r == Err::<Media, ImportError>(e),
        Ok(se) => match reconcile_episode_only_m(c2, sh, se, te) {
            Ok((c3, m)) => post == c3 && r == Ok::<Media, ImportError>(m),
            Err(e) => post == pre && r == Err::<Media, ImportError>(e),
        },
    }
}

pub open spec fn reconcile_episode_rel(
    pre: CatalogM,
    tshow: TraktShow,
    te: TraktEpisode,
    post: CatalogM,
    r: Result<Media, ImportError>,
) -> bool {
    match reconcile_show_m(pre, tshow) {
        Err(e) => post == pre && r == Err::<Media, ImportError>(e),
        Ok(_) => exists|c1: CatalogM, sh: Media, c2: CatalogM, rse: Result<Media, ImportError>|
            #[trigger] episode_chain_steps(pre, tshow, te, post, r, c1, sh, c2, rse),
    }
}

/// A season record resolved as one atomic unit: show, then season.
pub open spec fn season_chain_steps(
    pre: CatalogM,
    tshow: TraktShow,
    number: i32,
    post: CatalogM,
    r: Result<Media, ImportError>,
    c1: CatalogM,
    sh: Media,
    c2: CatalogM,
    rse: Result<Media, ImportError>,
) -> bool {
    &&& reconcile_show_m(pre, tshow) == Ok::<(CatalogM, Media), ImportError>((c1, sh))
    &&& reconcile_season_rel(c1, sh, number, c2, rse)
    &&& match rse {
        Err(e) => post == pre && r == Err::<Media, ImportError>(e),
        Ok(se) => post == c2 && r == Ok::<Media, ImportError>(se),
    }
}

pub open spec fn reconcile_season_record_rel(
    pre: CatalogM,
    tshow: TraktShow,
    number: i32,
    post: CatalogM,
    r: Result<Media, ImportError>,
) -> bool {
    match reconcile_show_m(pre, tshow) {
        Err(e) => post == pre && r == Err::<Media, ImportError>(e),
        Ok(_) => exists|c1: CatalogM, sh: Media, c2: CatalogM, rse: Result<Media, ImportError>|
            #[trigger] season_chain_steps(pre, tshow, number, post, r, c1, sh, c2, rse),
    }
}

/// One watch-history record resolved to its canonical entity. Only
/// movie and episode records are valid here: a show or season record
/// in a history file is invalid input, reported, never a panic.
pub open spec fn resolve_watch_media_rel(
    pre: CatalogM,
    media: TraktMedia,
    post: CatalogM,
    r: Result<Media, ImportError>,
) -> bool {
    match media {
        TraktMedia::Movie { movie } => match reconcile_movie_m(pre, movie) {
            Ok((c1, m)) => post == c1 && r == Ok::<Media, ImportError>(m),
            Err(e) => post == pre && r == Err::<Media, ImportError>(e),
        },
        TraktMedia::Episode { episode, show } => reconcile_episode_rel(pre, show, episode, post, r),
        TraktMedia::Show { .. } => post == pre && r == Err::<Media, ImportError>(
            ImportError::UnsupportedMediaType,
        ),
        TraktMedia::Season { .. } => post == pre && r == Err::<Media, ImportError>(
            ImportError::UnsupportedMediaType,
        ),
    }
}

/// One watchlist record resolved to its canonical entity; all four
/// record variants are valid here.
pub open spec fn resolve_list_media_rel(
    pre: CatalogM,
    media: TraktMedia,
    post: CatalogM,
    r: Result<Media, ImportError>,
) -> bool {
    match media {
        TraktMedia::Movie { movie } => match reconcile_movie_m(pre, movie) {
            Ok((c1, m)) => post == c1 && r == Ok::<Media, ImportError>(m),
            Err(e) => post == pre && r == Err::<Media, ImportError>(e),
        },
        TraktMedia::Episode { episode, show } => reconcile_episode_rel(pre, show, episode, post, r),
        TraktMedia::Show { show } => match reconcile_show_m(pre, show) {
            Ok((c1, m)) => post == c1 && r == Ok::<Media, ImportError>(m),
            Err(e) => post == pre && r == Err::<Media, ImportError>(e),
        },
        TraktMedia::Season { season, show } => reconcile_season_record_rel(
            pre,
            show,
            season.number,
            post,
            r,
        ),
    }
}

/// A history import processed front to first failure: each record is
/// resolved, then one watch fact is appended; a failure aborts the
/// remaining batch while earlier records persist.
pub open spec fn import_watch_history_rel(
    pre: CatalogM,
    entries: Seq<WatchHistoryEntry>,
    post: CatalogM,
    r: Result<(), ImportError>,
) -> bool
    decreases entries.len(),
{
    if entries.len() <= 0 {
        post == pre && r == Ok::<(), ImportError>(())
    } else {
        exists|mid: CatalogM, rm: Result<Media, ImportError>|
            {
                &&& #[trigger] resolve_watch_media_rel(pre, entries[0].media, mid, rm)
                &&& match rm {
                    Err(e) => post == mid && r == Err::<(), ImportError>(e),
                    Ok(m) => match insert_watch_history_m(
                        mid,
                        WatchHistory { watched_at: entries[0].watched_at, media: m },
                    ) {
                        Err(e) => post == mid && r == Err::<(), ImportError>(
                            ImportError::WatchHistory(e),
                        ),
                        Ok(mid2) => import_watch_history_rel(mid2, entries.drop_first(), post, r),
                    },
                }
            }
    }
}

/// A watchlist import processed the same way, appending one
/// list-membership fact per record to the fixed watchlist.
pub open spec fn import_watchlist_rel(
    pre: CatalogM,
    entries: Seq<WatchlistEntry>,
    post: CatalogM,
    r: Result<(), ImportError>,
) -> bool
    decreases entries.len(),
{
    if entries.len() <= 0 {
        post == pre && r == Ok::<(), ImportError>(())
    } else {
        exists|mid: CatalogM, rm: Result<Media, ImportError>|
            {
                &&& #[trigger] resolve_list_media_rel(pre, entries[0].media, mid, rm)
                &&& match rm {
                    Err(e) => post == mid && r == Err::<(), ImportError>(e),
                    Ok(m) => match insert_list_item_m(mid, 1, m, Some(entries[0].listed_at)) {
                        Err(e) => post == mid && r == Err::<(), ImportError>(
                            ImportError::ListItem(e),
                        ),
                        Ok(mid2) => import_watchlist_rel(mid2, entries.drop_first(), post, r),
                    },
                }
            }
    }
}

// ---------------------------------------------------------------------
// The export's path convention: which archive entries hold history,
// which hold the watchlist
// ---------------------------------------------------------------------

/// `n` occurs in `h` at position `i`.
pub open spec fn seq_contains_at(h: Seq<char>, n: Seq<char>, i: int) -> bool {
    0 <= i && i + n.len() <= h.len() && h.subrange(i, i + n.len()) == n
}

/// `n` occurs somewhere in `h`.
pub open spec fn seq_contains(h: Seq<char>, n: Seq<char>) -> bool {
    exists|i: int| #[trigger] seq_contains_at(h, n, i)
}

/// `h` ends with `n`.
pub open spec fn seq_ends_with(h: Seq<char>, n: Seq<char>) -> bool {
    n.len() <= h.len() && h.subrange(h.len() - n.len(), h.len() as int) == n
}

/// An archive entry holding watch-history records: under a watched
/// history path, with the export's data suffix.
pub open spec fn is_watch_history_path(path: Seq<char>) -> bool {
    seq_contains(path, ("/watched/history-")@) && seq_ends_with(path, (".json")@)
}

/// The archive entry holding the watchlist.
pub open spec fn is_watchlist_path(path: Seq<char>) -> bool {
    seq_ends_with(path, ("/lists/watchlist.json")@)
}

/// Whether `h` ends with `suffix`, character by character.
fn str_ends_with(h: &str, suffix: &str) -> (r: bool)
    ensures
        r == seq_ends_with(h@, suffix@),
{
    let hn = h.unicode_len();
    let sn = suffix.unicode_len();
    if sn > hn {
        return false;
    }
    let base = hn - sn;
    let mut j: usize = 0;
    while j < sn
        invariant
            j <= sn,
            sn <= hn,
            base == hn - sn,
            hn == h@.len(),
            sn == suffix@.len(),
            forall|k: int| 0 <= k < j ==> h@[base + k] == suffix@[k],
        decreases sn - j,
    {
        if h.get_char(base + j) != suffix.get_char(j) {
            proof {
                if seq_ends_with(h@, suffix@) {
                    assert(h@.subrange(h@.len() - suffix@.len(), h@.len() as int)[j as int]
                        == h@[base + j]);
                }
            }
            return false;
        }
        j += 1;
    }
    proof {
        assert(h@.subrange(h@.len() - suffix@.len(), h@.len() as int) =~= suffix@);
    }
    true
}

/// Whether `needle` occurs in `h` at position `i`.
fn str_matches_at(h: &str, needle: &str, i: usize) -> (r: bool)
    requires
        i + needle@.len() <= h@.len(),
        h@.len() <= usize::MAX,
    ensures
        r == seq_contains_at(h@, needle@, i as int),
{
    let nn = needle.unicode_len();
    let mut j: usize = 0;
    while j < nn
        invariant
            j <= nn,
            nn == needle@.len(),
            i + nn <= h@.len(),
            h@.len() <= usize::MAX,
            forall|k: int| 0 <= k < j ==> h@[i + k] == needle@[k],
        decreases nn - j,
    {
        if h.get_char(i + j) != needle.get_char(j) {
            proof {
                if seq_contains_at(h@, needle@, i as int) {
                    assert(h@.subrange(i as int, i + needle@.len())[j as int] == h@[i + j]);
                }
            }
            return false;
        }
        j += 1;
    }
    proof {
        assert(h@.subrange(i as int, i + needle@.len()) =~= needle@);
    }
    true
}

/// Whether `needle` occurs anywhere in `h`.
fn str_contains(h: &str, needle: &str) -> (r: bool)
    ensures
        r == seq_contains(h@, needle@),
{
    let hn = h.unicode_len();
    let nn = needle.unicode_len();
    if nn > hn {
        proof {
            assert forall|i: int| !(#[trigger] seq_contains_at(h@, needle@, i)) by {}
        }
        return false;
    }
    if nn == 0 {
        proof {
            assert(h@.subrange(0, 0) =~= needle@);
            assert(seq_contains_at(h@, needle@, 0));
        }
        return true;
    }
    let last = hn - nn;
    let mut i: usize = 0;
    while i <= last
        invariant
            i <= last + 1,
            last == hn - nn,
            hn == h@.len(),
            nn == needle@.len(),
            1 <= nn <= hn,
            forall|k: int| 0 <= k < i ==> !(#[trigger] seq_contains_at(h@, needle@, k)),
        decreases last - i + 1,
    {
        if str_matches_at(h, needle, i) {
            return true;
        }
        i += 1;
    }
    proof {
        assert forall|k: int| !(#[trigger] seq_contains_at(h@, needle@, k)) by {
            if 0 <= k <= last {
                assert(!seq_contains_at(h@, needle@, k));
            }
        }
    }
    false
}

/// Whether an archive entry name is a watch-history file of the export.
pub fn is_watch_history_file(name: &str) -> (r: bool)
    ensures
        r == is_watch_history_path(name@),
{
    str_contains(name, "/watched/history-") && str_ends_with(name, ".json")
}

/// Whether an archive entry name is the watchlist file of the export.
pub fn is_watchlist_file(name: &str) -> (r: bool)
    ensures
        r == is_watchlist_path(name@),
{
    str_ends_with(name, "/lists/watchlist.json")
}

// ---------------------------------------------------------------------
// Resolution: once a record has been reconciled, every lookup it
// drives hits
// ---------------------------------------------------------------------

/// The lookups an episode record drives all hit, through this show and
/// season row.
pub open spec fn episode_record_resolved_via(
    c: CatalogM,
    tshow: TraktShow,
    te: TraktEpisode,
    m: Media,
    sh: Media,
    row: SeasonRow,
) -> bool {
    &&& c.media_by_trakt(tshow.ids.trakt) == Some(sh)
    &&& c.season_by_show_and_number(sh.id, te.season_number) == Some(row)
    &&& c.media_by_trakt(te.ids.trakt) == Some(m)
}

/// The lookups a season record drives all hit, and the record denotes
/// the season entity of this row.
pub open spec fn season_record_resolved_via(
    c: CatalogM,
    tshow: TraktShow,
    number: i32,
    m: Media,
    sh: Media,
    row: SeasonRow,
) -> bool {
    &&& c.media_by_trakt(tshow.ids.trakt) == Some(sh)
    &&& c.season_by_show_and_number(sh.id, number) == Some(row)
    &&& m == Media { id: row.id, kind: MediaKind::Season }
}

/// A record is resolved in a catalog: every lookup its reconciliation
/// drives hits, and the record denotes `m`.
pub open spec fn media_record_resolved(c: CatalogM, media: TraktMedia, m: Media) -> bool {
    match media {
        TraktMedia::Movie { movie } => c.media_by_trakt(movie.ids.trakt) == Some(m),
        TraktMedia::Episode { episode, show } => exists|sh: Media, row: SeasonRow|
            #[trigger] episode_record_resolved_via(c, show, episode, m, sh, row),
        TraktMedia::Show { show } => c.media_by_trakt(show.ids.trakt) == Some(m),
        TraktMedia::Season { season, show } => exists|sh: Media, row: SeasonRow|
            #[trigger] season_record_resolved_via(c, show, season.number, m, sh, row),
    }
}

/// Resolution survives any append of canonical rows.
pub proof fn lemma_resolved_monotone(a: CatalogM, b: CatalogM, media: TraktMedia, m: Media)
    requires
        crate::txn::extends_canonical(a, b),
        media_record_resolved(a, media, m),
    ensures
        media_record_resolved(b, media, m),
{
    crate::txn::lemma_lookup_monotone(a, b);
    match media {
        TraktMedia::Episode { episode, show } => {
            let (sh, row) = choose|sh: Media, row: SeasonRow|
                #[trigger] episode_record_resolved_via(a, show, episode, m, sh, row);
            assert(episode_record_resolved_via(b, show, episode, m, sh, row));
        },
        TraktMedia::Season { season, show } => {
            let (sh, row) = choose|sh: Media, row: SeasonRow|
                #[trigger] season_record_resolved_via(a, show, season.number, m, sh, row);
            assert(season_record_resolved_via(b, show, season.number, m, sh, row));
        },
        _ => {},
    }
}

/// A successful show reconciliation leaves a well-formed catalog in
/// which the record's tracker id resolves to the returned entity.
pub proof fn lemma_reconcile_show_ok(c: CatalogM, ts: TraktShow)
    requires
        c.wf(),
    ensures
        reconcile_show_m(c, ts) matches Ok(p) ==> {
            &&& p.0.wf()
            &&& p.0.media_by_trakt(ts.ids.trakt) == Some(p.1)
            &&& extends_catalog(c, p.0)
        },
{
    match c.media_by_trakt(ts.ids.trakt) {
        Some(_) => {
            lemma_extends_refl(c);
        },
        None => {
            let ns = new_show_from_trakt(ts);
            lemma_insert_show_m_extends(c, ns);
            match insert_show_m(c, ns) {
                Err(_) => {},
                Ok((c1, m)) => {
                    match crate::db::create_media_m(c, MediaKind::Show) {
                        Err(_) => {},
                        Ok((ca, mm)) => {
                            crate::db::lemma_create_media_wf(c, MediaKind::Show);
                            let ids = media_external_id_from(ts.ids);
                            match crate::db::record_external_ids_m(ca, mm, ids) {
                                Err(_) => {},
                                Ok(cb) => {
                                    crate::db::lemma_record_external_wf(ca, mm, ids);
                                    crate::db::lemma_fresh_id_unused(c, mm.id);
                                    let row = crate::db::ShowRow {
                                        id: mm.id,
                                        title: ns.title,
                                        release_year: ns.release_year,
                                        overview: ns.overview,
                                        tagline: ns.tagline,
                                        episode_runtime: ns.episode_runtime,
                                    };
                                    crate::txn::lemma_show_row_push(cb, row);
                                },
                            }
                        },
                    }
                },
            }
        },
    }
}

/// A successful movie reconciliation leaves a well-formed catalog in
/// which the record's tracker id resolves to the returned entity.
pub proof fn lemma_reconcile_movie_ok(c: CatalogM, tm: TraktMovie)
    requires
        c.wf(),
    ensures
        reconcile_movie_m(c, tm) matches Ok(p) ==> {
            &&& p.0.wf()
            &&& p.0.media_by_trakt(tm.ids.trakt) == Some(p.1)
            &&& extends_catalog(c, p.0)
        },
{
    match c.media_by_trakt(tm.ids.trakt) {
        Some(_) => {
            lemma_extends_refl(c);
        },
        None => {
            let nm = new_movie_from_trakt(tm);
            lemma_insert_movie_m_extends(c, nm);
            match insert_movie_m(c, nm) {
                Err(_) => {},
                Ok((c1, m)) => {
                    match crate::db::create_media_m(c, MediaKind::Movie) {
                        Err(_) => {},
                        Ok((ca, mm)) => {
                            crate::db::lemma_create_media_wf(c, MediaKind::Movie);
                            let ids = media_external_id_from(tm.ids);
                            match crate::db::record_external_ids_m(ca, mm, ids) {
                                Err(_) => {},
                                Ok(cb) => {
                                    crate::db::lemma_record_external_wf(ca, mm, ids);
                                    crate::db::lemma_fresh_id_unused(c, mm.id);
                                    let row = crate::db::MovieRow {
                                        id: mm.id,
                                        title: nm.title,
                                        release_year: nm.release_year,
                                        overview: nm.overview,
                                        tagline: nm.tagline,
                                        runtime: nm.runtime,
                                    };
                                    crate::txn::lemma_movie_row_push(cb, row);
                                },
                            }
                        },
                    }
                },
            }
        },
    }
}

/// A successful season reconciliation leaves a well-formed catalog in
/// which (show, number) resolves to a season row denoting the returned
/// entity.
pub proof fn lemma_reconcile_season_ok(
    c: CatalogM,
    sh: Media,
    number: i32,
    c2: CatalogM,
    se: Media,
)
    requires
        c.wf(),
        reconcile_season_rel(c, sh, number, c2, Ok(se)),
    ensures
        c2.wf(),
        extends_catalog(c, c2),
        match c2.season_by_show_and_number(sh.id, number) {
            Some(row) => se == Media { id: row.id, kind: MediaKind::Season },
            None => false,
        },
{
    match c.season_by_show_and_number(sh.id, number) {
        Some(_) => {
            lemma_extends_refl(c);
        },
        None => {
            let t = choose|t: String|
                {
                    &&& (#[trigger] season_placeholder(t, number)).title@ == spec_season_title(
                        number,
                    )
                    &&& match insert_season_m(c, sh, season_placeholder(t, number)) {
                        Ok((c1m, mm)) => c2 == c1m && Ok::<Media, ImportError>(se) == Ok::<
                            Media,
                            ImportError,
                        >(mm),
                        Err(e) => c2 == c && Ok::<Media, ImportError>(se) == Err::<
                            Media,
                            ImportError,
                        >(ImportError::Season(e)),
                    }
                };
            let ns = season_placeholder(t, number);
            lemma_insert_season_m_extends(c, sh, ns);
            match insert_season_m(c, sh, ns) {
                Err(_) => {},
                Ok((c1m, mm)) => {
                    match crate::db::create_media_m(c, MediaKind::Season) {
                        Err(_) => {},
                        Ok((ca, mcreated)) => {
                            crate::db::lemma_create_media_wf(c, MediaKind::Season);
                            crate::db::lemma_fresh_id_unused(c, mcreated.id);
                            let row = crate::db::SeasonRow {
                                show_id: sh.id,
                                id: mcreated.id,
                                title: ns.title,
                                number: ns.number,
                                overview: ns.overview,
                            };
                            crate::txn::lemma_season_row_push(ca, row);
                        },
                    }
                },
            }
        },
    }
}

/// A successful episode reconciliation (of a resolved show and season)
/// leaves a well-formed catalog in which the record's tracker id
/// resolves to the returned entity.
pub proof fn lemma_reconcile_episode_only_ok(c: CatalogM, sh: Media, se: Media, te: TraktEpisode)
    requires
        c.wf(),
    ensures
        reconcile_episode_only_m(c, sh, se, te) matches Ok(p) ==> {
            &&& p.0.wf()
            &&& p.0.media_by_trakt(te.ids.trakt) == Some(p.1)
            &&& extends_catalog(c, p.0)
        },
{
    match c.media_by_trakt(te.ids.trakt) {
        Some(_) => {
            lemma_extends_refl(c);
        },
        None => {
            let ne = new_episode_from_trakt(te);
            lemma_insert_episode_m_extends(c, sh, se, ne);
            match insert_episode_m(c, sh, se, ne) {
                Err(_) => {},
                Ok((c1, m)) => {
                    match crate::db::create_media_m(c, MediaKind::Episode) {
                        Err(_) => {},
                        Ok((ca, mm)) => {
                            crate::db::lemma_create_media_wf(c, MediaKind::Episode);
                            let ids = media_external_id_from(te.ids);
                            match crate::db::record_external_ids_m(ca, mm, ids) {
                                Err(_) => {},
                                Ok(cb) => {
                                    crate::db::lemma_record_external_wf(ca, mm, ids);
                                    crate::db::lemma_fresh_id_unused(c, mm.id);
                                    let row = crate::db::EpisodeRow {
                                        show_id: sh.id,
                                        season_id: se.id,
                                        id: mm.id,
                                        title: ne.title,
                                        number: ne.number,
                                        overview: ne.overview,
                                        runtime: ne.runtime,
                                    };
                                    crate::txn::lemma_episode_row_push(cb, row);
                                },
                            }
                        },
                    }
                },
            }
        },
    }
}

/// Processing a prefix, then the rest, is processing the whole.
pub proof fn lemma_import_history_compose(
    pre: CatalogM,
    s1: Seq<WatchHistoryEntry>,
    mid: CatalogM,
    s2: Seq<WatchHistoryEntry>,
    post: CatalogM,
    r: Result<(), ImportError>,
)
    requires
        import_watch_history_rel(pre, s1, mid, Ok(())),
        import_watch_history_rel(mid, s2, post, r),
    ensures
        import_watch_history_rel(pre, s1 + s2, post, r),
    decreases s1.len(),
{
    if s1.len() <= 0 {
        assert(s1 + s2 =~= s2);
    } else {
        let (m1, rm): (CatalogM, Result<Media, ImportError>) = choose|
            m1: CatalogM,
            rm: Result<Media, ImportError>,
        |
            {
                &&& #[trigger] resolve_watch_media_rel(pre, s1[0].media, m1, rm)
                &&& match rm {
                    Err(e) => mid == m1 && Ok::<(), ImportError>(()) == Err::<(), ImportError>(e),
                    Ok(m) => match insert_watch_history_m(
                        m1,
                        WatchHistory { watched_at: s1[0].watched_at, media: m },
                    ) {
                        Err(e) => mid == m1 && Ok::<(), ImportError>(()) == Err::<(), ImportError>(
                            ImportError::WatchHistory(e),
                        ),
                        Ok(mid2) => import_watch_history_rel(mid2, s1.drop_first(), mid, Ok(())),
                    },
                }
            };
        match rm {
            Err(_) => {
                assert(false);
            },
            Ok(m) => {
                match insert_watch_history_m(
                    m1,
                    WatchHistory { watched_at: s1[0].watched_at, media: m },
                ) {
                    Err(_) => {
                        assert(false);
                    },
                    Ok(mid2) => {
                        lemma_import_history_compose(mid2, s1.drop_first(), mid, s2, post, r);
                        assert(s1.drop_first() + s2 =~= (s1 + s2).drop_first());
                        assert((s1 + s2)[0] == s1[0]);
                        assert(resolve_watch_media_rel(pre, (s1 + s2)[0].media, m1, rm));
                    },
                }
            },
        }
    }
}

/// Processing a prefix, then the rest, is processing the whole.
pub proof fn lemma_import_watchlist_compose(
    pre: CatalogM,
    s1: Seq<WatchlistEntry>,
    mid: CatalogM,
    s2: Seq<WatchlistEntry>,
    post: CatalogM,
    r: Result<(), ImportError>,
)
    requires
        import_watchlist_rel(pre, s1, mid, Ok(())),
        import_watchlist_rel(mid, s2, post, r),
    ensures
        import_watchlist_rel(pre, s1 + s2, post, r),
    decreases s1.len(),
{
    if s1.len() <= 0 {
        assert(s1 + s2 =~= s2);
    } else {
        let (m1, rm): (CatalogM, Result<Media, ImportError>) = choose|
            m1: CatalogM,
            rm: Result<Media, ImportError>,
        |
            {
                &&& #[trigger] resolve_list_media_rel(pre, s1[0].media, m1, rm)
                &&& match rm {
                    Err(e) => mid == m1 && Ok::<(), ImportError>(()) == Err::<(), ImportError>(e),
                    Ok(m) => match insert_list_item_m(m1, 1, m, Some(s1[0].listed_at)) {
                        Err(e) => mid == m1 && Ok::<(), ImportError>(()) == Err::<(), ImportError>(
                            ImportError::ListItem(e),
                        ),
                        Ok(mid2) => import_watchlist_rel(mid2, s1.drop_first(), mid, Ok(())),
                    },
                }
            };
        match rm {
            Err(_) => {
                assert(false);
            },
            Ok(m) => {
                match insert_list_item_m(m1, 1, m, Some(s1[0].listed_at)) {
                    Err(_) => {
                        assert(false);
                    },
                    Ok(mid2) => {
                        lemma_import_watchlist_compose(mid2, s1.drop_first(), mid, s2, post, r);
                        assert(s1.drop_first() + s2 =~= (s1 + s2).drop_first());
                        assert((s1 + s2)[0] == s1[0]);
                        assert(resolve_list_media_rel(pre, (s1 + s2)[0].media, m1, rm));
                    },
                }
            },
        }
    }
}

/// In a catalog where a record is resolved, reconciling it changes
/// nothing and returns exactly the resolved entity — the only outcome
/// the relation admits.
pub proof fn lemma_resolved_determines(c: CatalogM, media: TraktMedia, m: Media)
    requires
        c.wf(),
        media_record_resolved(c, media, m),
    ensures
        resolve_list_media_rel(c, media, c, Ok(m)),
        forall|c2: CatalogM, r2: Result<Media, ImportError>|
            #[trigger] resolve_list_media_rel(c, media, c2, r2) ==> c2 == c && r2 == Ok::<
                Media,
                ImportError,
            >(m),
{
    match media {
        TraktMedia::Movie { movie } => {
            assert(reconcile_movie_m(c, movie) == Ok::<(CatalogM, Media), ImportError>((c, m)));
        },
        TraktMedia::Show { show } => {
            assert(reconcile_show_m(c, show) == Ok::<(CatalogM, Media), ImportError>((c, m)));
        },
        TraktMedia::Episode { episode, show } => {
            let (sh, row) = choose|sh: Media, row: SeasonRow|
                #[trigger] episode_record_resolved_via(c, show, episode, m, sh, row);
            let se = Media { id: row.id, kind: MediaKind::Season };
            assert(reconcile_show_m(c, show) == Ok::<(CatalogM, Media), ImportError>((c, sh)));
            assert(reconcile_season_rel(c, sh, episode.season_number, c, Ok::<
                Media,
                ImportError,
            >(se)));
            assert(reconcile_episode_only_m(c, sh, se, episode) == Ok::<
                (CatalogM, Media),
                ImportError,
            >((c, m)));
            assert(episode_chain_steps(
                c,
                show,
                episode,
                c,
                Ok::<Media, ImportError>(m),
                c,
                sh,
                c,
                Ok::<Media, ImportError>(se),
            ));
            assert forall|c2: CatalogM, r2: Result<Media, ImportError>|
                #[trigger] reconcile_episode_rel(c, show, episode, c2, r2) implies c2 == c && r2
                == Ok::<Media, ImportError>(m) by {
                let (c1_, sh_, c2_, rse_) = choose|
                    c1_: CatalogM,
                    sh_: Media,
                    c2_: CatalogM,
                    rse_: Result<Media, ImportError>,
                | #[trigger] episode_chain_steps(c, show, episode, c2, r2, c1_, sh_, c2_, rse_);
                assert(c1_ == c && sh_ == sh);
                assert(c2_ == c && rse_ == Ok::<Media, ImportError>(se));
            }
        },
        TraktMedia::Season { season, show } => {
            let (sh, row) = choose|sh: Media, row: SeasonRow|
                #[trigger] season_record_resolved_via(c, show, season.number, m, sh, row);
            assert(reconcile_show_m(c, show) == Ok::<(CatalogM, Media), ImportError>((c, sh)));
            assert(reconcile_season_rel(c, sh, season.number, c, Ok::<Media, ImportError>(m)));
            assert(season_chain_steps(
                c,
                show,
                season.number,
                c,
                Ok::<Media, ImportError>(m),
                c,
                sh,
                c,
                Ok::<Media, ImportError>(m),
            ));
            assert forall|c2: CatalogM, r2: Result<Media, ImportError>|
                #[trigger] reconcile_season_record_rel(c, show, season.number, c2, r2) implies c2
                == c && r2 == Ok::<Media, ImportError>(m) by {
                let (c1_, sh_, c2_, rse_) = choose|
                    c1_: CatalogM,
                    sh_: Media,
                    c2_: CatalogM,
                    rse_: Result<Media, ImportError>,
                |
                    #[trigger] season_chain_steps(
                        c,
                        show,
                        season.number,
                        c2,
                        r2,
                        c1_,
                        sh_,
                        c2_,
                        rse_,
                    );
                assert(c1_ == c && sh_ == sh);
            }
        },
    }
}

/// After a successful reconciliation the record is resolved in the
/// resulting well-formed catalog, which only gained canonical rows.
pub proof fn lemma_resolve_list_achieves(c0: CatalogM, media: TraktMedia, c1: CatalogM, m: Media)
    requires
        c0.wf(),
        resolve_list_media_rel(c0, media, c1, Ok(m)),
    ensures
        c1.wf(),
        extends_catalog(c0, c1),
        media_record_resolved(c1, media, m),
{
    match media {
        TraktMedia::Movie { movie } => {
            lemma_reconcile_movie_ok(c0, movie);
        },
        TraktMedia::Show { show } => {
            lemma_reconcile_show_ok(c0, show);
        },
        TraktMedia::Episode { episode, show } => {
            let (c1_, sh, c2_, rse) = choose|
                c1_: CatalogM,
                sh: Media,
                c2_: CatalogM,
                rse: Result<Media, ImportError>,
            | #[trigger] episode_chain_steps(c0, show, episode, c1, Ok::<Media, ImportError>(m), c1_, sh, c2_, rse);
            lemma_reconcile_show_ok(c0, show);
            match rse {
                Err(_) => {
                    assert(false);
                },
                Ok(se) => {
                    lemma_reconcile_season_ok(c1_, sh, episode.season_number, c2_, se);
                    lemma_reconcile_episode_only_ok(c2_, sh, se, episode);
                    crate::txn::lemma_extends_weaken(c1_, c2_);
                    crate::txn::lemma_extends_weaken(c2_, c1);
                    crate::txn::lemma_lookup_monotone(c1_, c2_);
                    crate::txn::lemma_lookup_monotone(c2_, c1);
                    let row = c2_.season_by_show_and_number(sh.id, episode.season_number)->Some_0;
                    assert(c1.media_by_trakt(show.ids.trakt) == Some(sh));
                    assert(c1.season_by_show_and_number(sh.id, episode.season_number) == Some(row));
                    assert(episode_record_resolved_via(c1, show, episode, m, sh, row));
                    lemma_extends_trans(c0, c1_, c2_);
                    lemma_extends_trans(c0, c2_, c1);
                },
            }
        },
        TraktMedia::Season { season, show } => {
            let (c1_, sh, c2_, rse) = choose|
                c1_: CatalogM,
                sh: Media,
                c2_: CatalogM,
                rse: Result<Media, ImportError>,
            |
                #[trigger] season_chain_steps(
                    c0,
                    show,
                    season.number,
                    c1,
                    Ok::<Media, ImportError>(m),
                    c1_,
                    sh,
                    c2_,
                    rse,
                );
            lemma_reconcile_show_ok(c0, show);
            match rse {
                Err(_) => {
                    assert(false);
                },
                Ok(se) => {
                    lemma_reconcile_season_ok(c1_, sh, season.number, c2_, se);
                    crate::txn::lemma_extends_weaken(c1_, c2_);
                    crate::txn::lemma_lookup_monotone(c1_, c2_);
                    let row = c2_.season_by_show_and_number(sh.id, season.number)->Some_0;
                    assert(season_record_resolved_via(c1, show, season.number, m, sh, row));
                    lemma_extends_trans(c0, c1_, c2_);
                },
            }
        },
    }
}

/// Reconciling the same external record twice yields the same canonical
/// entity both times, and the second reconciliation adds nothing: the
/// catalog after the second call is exactly the catalog after the
/// first, row for row, in every table.
pub proof fn lemma_reconcile_idempotent(
    c0: CatalogM,
    media: TraktMedia,
    c1: CatalogM,
    m1: Media,
    c2: CatalogM,
    r2: Result<Media, ImportError>,
)
    requires
        c0.wf(),
        resolve_list_media_rel(c0, media, c1, Ok(m1)),
        resolve_list_media_rel(c1, media, c2, r2),
    ensures
        c2 == c1,
        r2 == Ok::<Media, ImportError>(m1),
{
    lemma_resolve_list_achieves(c0, media, c1, m1);
    lemma_resolved_determines(c1, media, m1);
}

/// Reconciling an episode record whose show, season and episode do not
/// exist yet creates exactly one show row, one season row — titled
/// after its number — and one episode row, wired together and in
/// dependency order (the ids ascend show, season, episode), in one
/// successful outcome. That a failing outcome leaves none of those rows
/// behind is part of `reconcile_episode_rel` itself: each of its error
/// cases pins the post state to the pre state.
pub proof fn lemma_episode_record_creates_ancestors(
    c0: CatalogM,
    tshow: TraktShow,
    te: TraktEpisode,
    c1: CatalogM,
    m: Media,
)
    requires
        c0.wf(),
        reconcile_episode_rel(c0, tshow, te, c1, Ok(m)),
        c0.media_by_trakt(tshow.ids.trakt) is None,
        c0.media_by_trakt(te.ids.trakt) is None,
        te.ids.trakt != tshow.ids.trakt,
    ensures
        c1.shows.len() == c0.shows.len() + 1,
        c1.seasons.len() == c0.seasons.len() + 1,
        c1.episodes.len() == c0.episodes.len() + 1,
        c1.movies == c0.movies,
        c1.watch_history == c0.watch_history,
        ({
            let show_row = c1.shows.last();
            let season_row = c1.seasons.last();
            let episode_row = c1.episodes.last();
            &&& show_row.id < season_row.id < episode_row.id
            &&& season_row.show_id == show_row.id
            &&& season_row.number == te.season_number
            &&& season_row.title@ == spec_season_title(te.season_number)
            &&& season_row.overview is None
            &&& episode_row.show_id == show_row.id
            &&& episode_row.season_id == season_row.id
            &&& episode_row.number == te.number
            &&& episode_row.title == te.title
            &&& m == Media { id: episode_row.id, kind: MediaKind::Episode }
            &&& show_row.title == tshow.title
        }),
{
    let (c1_, sh, c2_, rse) = choose|
        c1_: CatalogM,
        sh: Media,
        c2_: CatalogM,
        rse: Result<Media, ImportError>,
    | #[trigger] episode_chain_steps(c0, tshow, te, c1, Ok::<Media, ImportError>(m), c1_, sh, c2_, rse);

    // the show is created: unfold its insert chain
    let ns = new_show_from_trakt(tshow);
    match crate::db::create_media_m(c0, MediaKind::Show) {
        Err(_) => {
            assert(false);
        },
        Ok((ca, sh0)) => {
            crate::db::lemma_create_media_wf(c0, MediaKind::Show);
            let ids = media_external_id_from(tshow.ids);
            match crate::db::record_external_ids_m(ca, sh0, ids) {
                Err(_) => {
                    assert(false);
                },
                Ok(cb) => {
                    crate::db::lemma_record_external_wf(ca, sh0, ids);
                    assert(sh == sh0 && sh.id == c0.next_id);
                    assert(c1_.shows == c0.shows.push(c1_.shows.last()));
                    assert(c1_.seasons == c0.seasons);
                    assert(c1_.episodes == c0.episodes);
                    assert(c1_.next_id == c0.next_id + 1);
                    lemma_reconcile_show_ok(c0, tshow);

                    // the season lookup misses: every season row belongs
                    // to a show that already existed
                    crate::scan::lemma_find_first_characterizes(
                        c1_.seasons,
                        crate::db::season_with_show_and_number(sh.id, te.season_number),
                    );
                    assert forall|i: int| 0 <= i < c1_.seasons.len() implies !(
                    crate::db::season_with_show_and_number(sh.id, te.season_number)(
                        #[trigger] c1_.seasons[i],
                    )) by {
                        assert(c0.show_row(c0.seasons[i].show_id) is Some);
                        crate::db::lemma_show_row_id_bound(c0, c0.seasons[i].show_id);
                    }
                    assert(c1_.season_by_show_and_number(sh.id, te.season_number) is None);

                    // the season is created: unfold its insert chain
                    match rse {
                        Err(_) => {
                            assert(false);
                        },
                        Ok(se) => {
                            let t = choose|t: String|
                                {
                                    &&& (#[trigger] season_placeholder(
                                        t,
                                        te.season_number,
                                    )).title@ == spec_season_title(te.season_number)
                                    &&& match insert_season_m(
                                        c1_,
                                        sh,
                                        season_placeholder(t, te.season_number),
                                    ) {
                                        Ok((c1m, mm)) => c2_ == c1m && Ok::<Media, ImportError>(se)
                                            == Ok::<Media, ImportError>(mm),
                                        Err(e) => c2_ == c1_ && Ok::<Media, ImportError>(se)
                                            == Err::<Media, ImportError>(ImportError::Season(e)),
                                    }
                                };
                            match crate::db::create_media_m(c1_, MediaKind::Season) {
                                Err(_) => {
                                    assert(false);
                                },
                                Ok((cc, se0)) => {
                                    crate::db::lemma_create_media_wf(c1_, MediaKind::Season);
                                    assert(se == se0 && se.id == c0.next_id + 1);
                                    assert(c2_.seasons == c0.seasons.push(c2_.seasons.last()));
                                    assert(c2_.seasons.last().title@ == spec_season_title(
                                        te.season_number,
                                    ));
                                    assert(c2_.shows == c1_.shows);
                                    assert(c2_.episodes == c0.episodes);
                                    assert(c2_.external_ids == c1_.external_ids);
                                    assert(c2_.next_id == c0.next_id + 2);
                                    lemma_reconcile_season_ok(c1_, sh, te.season_number, c2_, se);

                                    // the episode lookup misses: the only
                                    // new mapping row carries the show's
                                    // tracker id, not the episode's
                                    crate::db::lemma_media_by_trakt_none(c0, te.ids.trakt);
                                    crate::scan::lemma_find_first_push(
                                        c0.external_ids,
                                        crate::db::ext_with_trakt(te.ids.trakt),
                                        crate::db::ExternalIdRow { media_id: sh.id, ids },
                                    );
                                    assert(c2_.ext_row_by_trakt(te.ids.trakt) is None);
                                    assert(c2_.media_by_trakt(te.ids.trakt) is None);

                                    // the episode is created
                                    match crate::db::create_media_m(c2_, MediaKind::Episode) {
                                        Err(_) => {
                                            assert(false);
                                        },
                                        Ok((cd, m0)) => {
                                            crate::db::lemma_create_media_wf(
                                                c2_,
                                                MediaKind::Episode,
                                            );
                                            let eids = media_external_id_from(te.ids);
                                            match crate::db::record_external_ids_m(
                                                cd,
                                                m0,
                                                eids,
                                            ) {
                                                Err(_) => {
                                                    assert(false);
                                                },
                                                Ok(ce) => {
                                                    assert(m == m0 && m.id == c0.next_id + 2);
                                                    assert(c1.episodes == c0.episodes.push(
                                                        c1.episodes.last(),
                                                    ));
                                                    assert(c1.shows == c2_.shows);
                                                    assert(c1.seasons == c2_.seasons);
                                                    assert(c1.movies == c0.movies);
                                                    assert(c1.watch_history == c0.watch_history);
                                                },
                                            }
                                        },
                                    }
                                },
                            }
                        },
                    }
                },
            }
        },
    }
}

/// Appending one watch fact for a current entity preserves the
/// invariant and leaves every canonical table exactly as it was.
pub proof fn lemma_watch_push(c: CatalogM, wh: WatchHistory)
    requires
        c.wf(),
    ensures
        insert_watch_history_m(c, wh) matches Ok(c2) ==> {
            &&& c2.wf()
            &&& crate::txn::extends_canonical(c, c2)
            &&& c2.media == c.media && c2.movies == c.movies && c2.shows == c.shows && c2.seasons
                == c.seasons && c2.episodes == c.episodes && c2.external_ids == c.external_ids
                && c2.next_id == c.next_id
            &&& c2.list_items == c.list_items
            &&& c2.watch_history.len() == c.watch_history.len() + 1
        },
{
    match insert_watch_history_m(c, wh) {
        Err(_) => {},
        Ok(c2) => {
            crate::txn::lemma_extends_refl(c);
            crate::txn::lemma_extends_weaken(c, c);
            assert(c2.media.subrange(0, c.media.len() as int) =~= c.media);
            assert(c2.movies.subrange(0, c.movies.len() as int) =~= c.movies);
            assert(c2.shows.subrange(0, c.shows.len() as int) =~= c.shows);
            assert(c2.seasons.subrange(0, c.seasons.len() as int) =~= c.seasons);
            assert(c2.episodes.subrange(0, c.episodes.len() as int) =~= c.episodes);
            assert(c2.external_ids.subrange(0, c.external_ids.len() as int) =~= c.external_ids);
        },
    }
}

/// After a successful history import every entry is a movie or episode
/// record, resolved in the resulting well-formed catalog; the canonical
/// tables only gained rows, the list ledger is untouched, and exactly
/// one watch fact was appended per entry.
pub proof fn lemma_import_history_achieves(
    c0: CatalogM,
    entries: Seq<WatchHistoryEntry>,
    c1: CatalogM,
)
    requires
        c0.wf(),
        import_watch_history_rel(c0, entries, c1, Ok(())),
    ensures
        c1.wf(),
        crate::txn::extends_canonical(c0, c1),
        c1.watch_history.len() == c0.watch_history.len() + entries.len(),
        c1.list_items == c0.list_items,
        forall|i: int|
            0 <= i < entries.len() ==> ((#[trigger] entries[i]).media is Movie || entries[i].media
                is Episode),
        forall|i: int|
            0 <= i < entries.len() ==> exists|m: Media|
                media_record_resolved(c1, (#[trigger] entries[i]).media, m),
    decreases entries.len(),
{
    if entries.len() <= 0 {
        crate::txn::lemma_extends_refl(c0);
        crate::txn::lemma_extends_weaken(c0, c0);
    } else {
        let (mid, rm): (CatalogM, Result<Media, ImportError>) = choose|
            mid: CatalogM,
            rm: Result<Media, ImportError>,
        |
            {
                &&& #[trigger] resolve_watch_media_rel(c0, entries[0].media, mid, rm)
                &&& match rm {
                    Err(e) => c1 == mid && Ok::<(), ImportError>(()) == Err::<(), ImportError>(e),
                    Ok(m) => match insert_watch_history_m(
                        mid,
                        WatchHistory { watched_at: entries[0].watched_at, media: m },
                    ) {
                        Err(e) => c1 == mid && Ok::<(), ImportError>(()) == Err::<(), ImportError>(
                            ImportError::WatchHistory(e),
                        ),
                        Ok(mid2) => import_watch_history_rel(
                            mid2,
                            entries.drop_first(),
                            c1,
                            Ok(()),
                        ),
                    },
                }
            };
        match rm {
            Err(_) => {
                assert(false);
            },
            Ok(m) => {
                assert(resolve_list_media_rel(c0, entries[0].media, mid, Ok::<
                    Media,
                    ImportError,
                >(m)));
                lemma_resolve_list_achieves(c0, entries[0].media, mid, m);
                crate::txn::lemma_extends_weaken(c0, mid);
                let wh = WatchHistory { watched_at: entries[0].watched_at, media: m };
                lemma_watch_push(mid, wh);
                match insert_watch_history_m(mid, wh) {
                    Err(_) => {
                        assert(false);
                    },
                    Ok(mid2) => {
                        lemma_resolved_monotone(mid, mid2, entries[0].media, m);
                        lemma_import_history_achieves(mid2, entries.drop_first(), c1);
                        crate::txn::lemma_extends_canonical_trans(c0, mid, mid2);
                        crate::txn::lemma_extends_canonical_trans(c0, mid2, c1);
                        lemma_resolved_monotone(mid2, c1, entries[0].media, m);
                        assert forall|i: int| 1 <= i < entries.len() implies ((
                        #[trigger] entries[i]).media is Movie || entries[i].media
                            is Episode) by {
                            assert(entries.drop_first()[i - 1] == entries[i]);
                        }
                        assert forall|i: int| 1 <= i < entries.len() implies exists|m2: Media|
                            media_record_resolved(c1, (#[trigger] entries[i]).media, m2) by {
                            assert(entries.drop_first()[i - 1] == entries[i]);
                            let m2 = choose|m2: Media|
                                #[trigger] media_record_resolved(
                                    c1,
                                    entries.drop_first()[i - 1].media,
                                    m2,
                                );
                            assert(media_record_resolved(c1, entries[i].media, m2));
                        }
                    },
                }
            },
        }
    }
}

/// Importing a history file whose entries are all already resolved
/// succeeds, changes no canonical table and no list fact, and appends
/// exactly one watch fact per entry.
pub proof fn lemma_import_history_on_resolved(
    cs: CatalogM,
    entries: Seq<WatchHistoryEntry>,
    post: CatalogM,
    r: Result<(), ImportError>,
)
    requires
        cs.wf(),
        forall|i: int|
            0 <= i < entries.len() ==> ((#[trigger] entries[i]).media is Movie || entries[i].media
                is Episode),
        forall|i: int|
            0 <= i < entries.len() ==> exists|m: Media|
                media_record_resolved(cs, (#[trigger] entries[i]).media, m),
        import_watch_history_rel(cs, entries, post, r),
    ensures
        r == Ok::<(), ImportError>(()),
        post.media == cs.media && post.movies == cs.movies && post.shows == cs.shows
            && post.seasons == cs.seasons && post.episodes == cs.episodes && post.external_ids
            == cs.external_ids && post.next_id == cs.next_id,
        post.list_items == cs.list_items,
        post.watch_history.len() == cs.watch_history.len() + entries.len(),
    decreases entries.len(),
{
    if entries.len() <= 0 {
    } else {
        let (mid, rm): (CatalogM, Result<Media, ImportError>) = choose|
            mid: CatalogM,
            rm: Result<Media, ImportError>,
        |
            {
                &&& #[trigger] resolve_watch_media_rel(cs, entries[0].media, mid, rm)
                &&& match rm {
                    Err(e) => post == mid && r == Err::<(), ImportError>(e),
                    Ok(m) => match insert_watch_history_m(
                        mid,
                        WatchHistory { watched_at: entries[0].watched_at, media: m },
                    ) {
                        Err(e) => post == mid && r == Err::<(), ImportError>(
                            ImportError::WatchHistory(e),
                        ),
                        Ok(mid2) => import_watch_history_rel(mid2, entries.drop_first(), post, r),
                    },
                }
            };
        let m = choose|m: Media| #[trigger] media_record_resolved(cs, entries[0].media, m);
        lemma_resolved_determines(cs, entries[0].media, m);
        assert(resolve_list_media_rel(cs, entries[0].media, mid, rm));
        assert(mid == cs && rm == Ok::<Media, ImportError>(m));
        // the resolved entity is a current row, so the append succeeds
        match entries[0].media {
            TraktMedia::Movie { movie } => {
                crate::db::lemma_media_by_trakt_found(cs, movie.ids.trakt);
            },
            TraktMedia::Episode { episode, show } => {
                let (sh, row) = choose|sh: Media, row: SeasonRow|
                    #[trigger] episode_record_resolved_via(cs, show, episode, m, sh, row);
                crate::db::lemma_media_by_trakt_found(cs, episode.ids.trakt);
            },
            _ => {
                assert(false);
            },
        }
        let wh = WatchHistory { watched_at: entries[0].watched_at, media: m };
        lemma_watch_push(cs, wh);
        match insert_watch_history_m(cs, wh) {
            Err(_) => {
                assert(false);
            },
            Ok(mid2) => {
                assert forall|i: int| 0 <= i < entries.drop_first().len() implies exists|m2: Media|
                    media_record_resolved(
                        mid2,
                        (#[trigger] entries.drop_first()[i]).media,
                        m2,
                    ) by {
                    assert(entries.drop_first()[i] == entries[i + 1]);
                    let m2 = choose|m2: Media|
                        #[trigger] media_record_resolved(cs, entries[i + 1].media, m2);
                    lemma_resolved_monotone(cs, mid2, entries[i + 1].media, m2);
                }
                assert forall|i: int| 0 <= i < entries.drop_first().len() implies ((
                #[trigger] entries.drop_first()[i]).media is Movie || entries.drop_first()[i].media
                    is Episode) by {
                    assert(entries.drop_first()[i] == entries[i + 1]);
                }
                lemma_import_history_on_resolved(mid2, entries.drop_first(), post, r);
            },
        }
    }
}

/// Importing the same history file twice succeeds twice, leaves every
/// canonical table (and so every canonical-entity count) unchanged by
/// the second run, and doubles the watch facts: each run appends one
/// row per entry, with no dedup on the ledger.
pub proof fn lemma_import_history_idempotent(
    c0: CatalogM,
    entries: Seq<WatchHistoryEntry>,
    c1: CatalogM,
    c2: CatalogM,
    r2: Result<(), ImportError>,
)
    requires
        c0.wf(),
        import_watch_history_rel(c0, entries, c1, Ok(())),
        import_watch_history_rel(c1, entries, c2, r2),
    ensures
        r2 == Ok::<(), ImportError>(()),
        c2.media == c1.media && c2.movies == c1.movies && c2.shows == c1.shows && c2.seasons
            == c1.seasons && c2.episodes == c1.episodes && c2.external_ids == c1.external_ids
            && c2.next_id == c1.next_id,
        c2.list_items == c1.list_items,
        c1.watch_history.len() == c0.watch_history.len() + entries.len(),
        c2.watch_history.len() == c1.watch_history.len() + entries.len(),
{
    lemma_import_history_achieves(c0, entries, c1);
    lemma_import_history_on_resolved(c1, entries, c2, r2);
}

// ---------------------------------------------------------------------
// Executable reconciliation
// ---------------------------------------------------------------------

fn year_or_default(year: &Option<i32>) -> (r: i32)
    ensures
        r == year_or_zero(*year),
{
    match year {
        Some(y) => *y,
        None => 0,
    }
}

/// Resolves a show record to its canonical entity, creating the show
/// with the record's descriptive fields and id mapping when absent.
pub fn get_or_create_show(catalog: &mut Catalog, trakt_show: &TraktShow) -> (r: Result<
    Media,
    ImportError,
>)
    requires
        old(catalog)@.wf(),
    ensures
        final(catalog)@.wf(),
        match r {
            Ok(m) => reconcile_show_m(old(catalog)@, *trakt_show) == Ok::<_, ImportError>(
                (final(catalog)@, m),
            ) && extends_catalog(old(catalog)@, final(catalog)@),
            Err(e) => final(catalog)@ == old(catalog)@ && reconcile_show_m(
                old(catalog)@,
                *trakt_show,
            ) == Err::<(CatalogM, Media), _>(e),
        },
{
    match get_media_by_trakt_id(catalog, trakt_show.ids.trakt) {
        Some(m) => {
            proof {
                lemma_extends_refl(catalog@);
            }
            Ok(m)
        },
        None => {
            let new_show = NewShow {
                title: trakt_show.title.clone(),
                release_year: year_or_default(&trakt_show.year),
                overview: None,
                tagline: None,
                episode_runtime: None,
                external_ids: Some(MediaExternalId::from(trakt_show.ids.duplicate())),
                seasons: None,
            };
            proof {
                assert(new_show == new_show_from_trakt(*trakt_show));
            }
            match insert_show(catalog, new_show) {
                Ok(m) => {
                    proof {
                        lemma_insert_show_m_extends(old(catalog)@, new_show_from_trakt(
                            *trakt_show,
                        ));
                    }
                    Ok(m)
                },
                Err(e) => Err(ImportError::Show(e)),
            }
        },
    }
}

/// Resolves a movie record to its canonical entity, creating the movie
/// when absent.
pub fn get_or_create_movie(catalog: &mut Catalog, trakt_movie: &TraktMovie) -> (r: Result<
    Media,
    ImportError,
>)
    requires
        old(catalog)@.wf(),
    ensures
        final(catalog)@.wf(),
        match r {
            Ok(m) => reconcile_movie_m(old(catalog)@, *trakt_movie) == Ok::<_, ImportError>(
                (final(catalog)@, m),
            ) && extends_catalog(old(catalog)@, final(catalog)@),
            Err(e) => final(catalog)@ == old(catalog)@ && reconcile_movie_m(
                old(catalog)@,
                *trakt_movie,
            ) == Err::<(CatalogM, Media), _>(e),
        },
{
    match get_media_by_trakt_id(catalog, trakt_movie.ids.trakt) {
        Some(m) => {
            proof {
                lemma_extends_refl(catalog@);
            }
            Ok(m)
        },
        None => {
            let new_movie = NewMovie {
                title: trakt_movie.title.clone(),
                release_year: year_or_default(&trakt_movie.year),
                overview: None,
                tagline: None,
                runtime: None,
                external_ids: Some(MediaExternalId::from(trakt_movie.ids.duplicate())),
            };
            proof {
                assert(new_movie == new_movie_from_trakt(*trakt_movie));
            }
            match insert_movie(catalog, new_movie) {
                Ok(m) => {
                    proof {
                        lemma_insert_movie_m_extends(old(catalog)@, new_movie_from_trakt(
                            *trakt_movie,
                        ));
                    }
                    Ok(m)
                },
                Err(e) => Err(ImportError::Movie(e)),
            }
        },
    }
}

/// Resolves a season of a resolved show by number, creating a
/// placeholder season titled after its number when absent.
pub fn get_or_create_season(catalog: &mut Catalog, show: &Media, season_number: i32) -> (r: Result<
    Media,
    ImportError,
>)
    requires
        old(catalog)@.wf(),
    ensures
        final(catalog)@.wf(),
        match r {
            Ok(m) => reconcile_season_rel(old(catalog)@, *show, season_number, final(catalog)@, Ok(m))
                && extends_catalog(old(catalog)@, final(catalog)@),
            Err(e) => final(catalog)@ == old(catalog)@ && reconcile_season_rel(
                old(catalog)@,
                *show,
                season_number,
                final(catalog)@,
                Err(e),
            ),
        },
{
    match get_season_by_show_and_number(catalog, show, season_number) {
        Some(m) => {
            proof {
                lemma_extends_refl(catalog@);
            }
            Ok(m)
        },
        None => {
            let title = season_title(season_number);
            let ghost t = title;
            let new_season = NewSeason {
                title,
                number: season_number,
                overview: None,
                external_ids: None,
                episodes: None,
            };
            proof {
                assert(new_season == season_placeholder(t, season_number));
            }
            match insert_season(catalog, show, new_season) {
                Ok(m) => {
                    proof {
                        lemma_insert_season_m_extends(
                            old(catalog)@,
                            *show,
                            season_placeholder(t, season_number),
                        );
                        assert(season_placeholder(t, season_number).title@ == spec_season_title(
                            season_number,
                        ));
                        assert(reconcile_season_rel(
                            old(catalog)@,
                            *show,
                            season_number,
                            catalog@,
                            Ok(m),
                        ));
                    }
                    Ok(m)
                },
                Err(e) => {
                    proof {
                        assert(season_placeholder(t, season_number).title@ == spec_season_title(
                            season_number,
                        ));
                        assert(reconcile_season_rel(
                            old(catalog)@,
                            *show,
                            season_number,
                            catalog@,
                            Err(ImportError::Season(e)),
                        ));
                    }
                    Err(ImportError::Season(e))
                },
            }
        },
    }
}

/// Resolves an episode record of a resolved show and season by its
/// tracker id, creating it with the record's title, number and id
/// mapping when absent.
pub fn get_or_create_episode(
    catalog: &mut Catalog,
    show: &Media,
    season: &Media,
    trakt_episode: &TraktEpisode,
) -> (r: Result<Media, ImportError>)
    requires
        old(catalog)@.wf(),
    ensures
        final(catalog)@.wf(),
        match r {
            Ok(m) => reconcile_episode_only_m(old(catalog)@, *show, *season, *trakt_episode)
                == Ok::<_, ImportError>((final(catalog)@, m)) && extends_catalog(
                old(catalog)@,
                final(catalog)@,
            ),
            Err(e) => final(catalog)@ == old(catalog)@ && reconcile_episode_only_m(
                old(catalog)@,
                *show,
                *season,
                *trakt_episode,
            ) == Err::<(CatalogM, Media), _>(e),
        },
{
    match get_media_by_trakt_id(catalog, trakt_episode.ids.trakt) {
        Some(m) => {
            proof {
                lemma_extends_refl(catalog@);
            }
            Ok(m)
        },
        None => {
            let new_episode = NewEpisode {
                title: trakt_episode.title.clone(),
                number: trakt_episode.number,
                overview: None,
                runtime: None,
                external_ids: Some(MediaExternalId::from(trakt_episode.ids.duplicate())),
            };
            proof {
                assert(new_episode == new_episode_from_trakt(*trakt_episode));
            }
            match insert_episode(catalog, show, season, new_episode) {
                Ok(m) => {
                    proof {
                        lemma_insert_episode_m_extends(
                            old(catalog)@,
                            *show,
                            *season,
                            new_episode_from_trakt(*trakt_episode),
                        );
                    }
                    Ok(m)
                },
                Err(e) => Err(ImportError::Episode(e)),
            }
        },
    }
}

/// Resolves one watch-history record as an atomic unit.
fn resolve_watch_media(catalog: &mut Catalog, media: &TraktMedia) -> (r: Result<
    Media,
    ImportError,
>)
    requires
        old(catalog)@.wf(),
    ensures
        final(catalog)@.wf(),
        match r {
            Ok(m) => resolve_watch_media_rel(old(catalog)@, *media, final(catalog)@, Ok(m))
                && extends_catalog(old(catalog)@, final(catalog)@),
            Err(e) => final(catalog)@ == old(catalog)@ && resolve_watch_media_rel(
                old(catalog)@,
                *media,
                final(catalog)@,
                Err(e),
            ),
        },
{
    match media {
        TraktMedia::Episode { episode, show } => resolve_episode_record(catalog, show, episode),
        TraktMedia::Movie { movie } => get_or_create_movie(catalog, movie),
        TraktMedia::Show { .. } => Err(ImportError::UnsupportedMediaType),
        TraktMedia::Season { .. } => Err(ImportError::UnsupportedMediaType),
    }
}

/// Resolves one watchlist record as an atomic unit.
fn resolve_list_media(catalog: &mut Catalog, media: &TraktMedia) -> (r: Result<Media, ImportError>)
    requires
        old(catalog)@.wf(),
    ensures
        final(catalog)@.wf(),
        match r {
            Ok(m) => resolve_list_media_rel(old(catalog)@, *media, final(catalog)@, Ok(m))
                && extends_catalog(old(catalog)@, final(catalog)@),
            Err(e) => final(catalog)@ == old(catalog)@ && resolve_list_media_rel(
                old(catalog)@,
                *media,
                final(catalog)@,
                Err(e),
            ),
        },
{
    match media {
        TraktMedia::Episode { episode, show } => resolve_episode_record(catalog, show, episode),
        TraktMedia::Movie { movie } => get_or_create_movie(catalog, movie),
        TraktMedia::Show { show } => get_or_create_show(catalog, show),
        TraktMedia::Season { season, show } => resolve_season_record(catalog, show, season.number),
    }
}

/// Show, then season, then episode, rolled back together on failure.
#[verifier::rlimit(50)]
fn resolve_episode_record(
    catalog: &mut Catalog,
    trakt_show: &TraktShow,
    trakt_episode: &TraktEpisode,
) -> (r: Result<Media, ImportError>)
    requires
        old(catalog)@.wf(),
    ensures
        final(catalog)@.wf(),
        match r {
            Ok(m) => reconcile_episode_rel(
                old(catalog)@,
                *trakt_show,
                *trakt_episode,
                final(catalog)@,
                Ok(m),
            ) && extends_catalog(old(catalog)@, final(catalog)@),
            Err(e) => final(catalog)@ == old(catalog)@ && reconcile_episode_rel(
                old(catalog)@,
                *trakt_show,
                *trakt_episode,
                final(catalog)@,
                Err(e),
            ),
        },
{
    let ghost pre = catalog@;
    let mark = crate::txn::take_mark(catalog);
    let sh = match get_or_create_show(catalog, trakt_show) {
        Ok(v) => v,
        Err(e) => {
            return Err(e);
        },
    };
    let ghost c1 = catalog@;
    let se = match get_or_create_season(catalog, &sh, trakt_episode.season_number) {
        Ok(v) => v,
        Err(e) => {
            crate::txn::abort_to_mark(catalog, &mark, Ghost(pre));
            proof {
                assert(episode_chain_steps(
                    pre,
                    *trakt_show,
                    *trakt_episode,
                    catalog@,
                    Err::<Media, ImportError>(e),
                    c1,
                    sh,
                    c1,
                    Err::<Media, ImportError>(e),
                ));
            }
            return Err(e);
        },
    };
    let ghost c2 = catalog@;
    proof {
        lemma_extends_trans(pre, c1, c2);
    }
    match get_or_create_episode(catalog, &sh, &se, trakt_episode) {
        Ok(m) => {
            proof {
                lemma_extends_trans(pre, c2, catalog@);
                assert(episode_chain_steps(
                    pre,
                    *trakt_show,
                    *trakt_episode,
                    catalog@,
                    Ok::<Media, ImportError>(m),
                    c1,
                    sh,
                    c2,
                    Ok::<Media, ImportError>(se),
                ));
            }
            Ok(m)
        },
        Err(e) => {
            crate::txn::abort_to_mark(catalog, &mark, Ghost(pre));
            proof {
                assert(episode_chain_steps(
                    pre,
                    *trakt_show,
                    *trakt_episode,
                    catalog@,
                    Err::<Media, ImportError>(e),
                    c1,
                    sh,
                    c2,
                    Ok::<Media, ImportError>(se),
                ));
            }
            Err(e)
        },
    }
}

/// Show, then season, rolled back together on failure.
#[verifier::rlimit(50)]
fn resolve_season_record(catalog: &mut Catalog, trakt_show: &TraktShow, number: i32) -> (r: Result<
    Media,
    ImportError,
>)
    requires
        old(catalog)@.wf(),
    ensures
        final(catalog)@.wf(),
        match r {
            Ok(m) => reconcile_season_record_rel(
                old(catalog)@,
                *trakt_show,
                number,
                final(catalog)@,
                Ok(m),
            ) && extends_catalog(old(catalog)@, final(catalog)@),
            Err(e) => final(catalog)@ == old(catalog)@ && reconcile_season_record_rel(
                old(catalog)@,
                *trakt_show,
                number,
                final(catalog)@,
                Err(e),
            ),
        },
{
    let ghost pre = catalog@;
    let mark = crate::txn::take_mark(catalog);
    let sh = match get_or_create_show(catalog, trakt_show) {
        Ok(v) => v,
        Err(e) => {
            return Err(e);
        },
    };
    let ghost c1 = catalog@;
    match get_or_create_season(catalog, &sh, number) {
        Ok(se) => {
            proof {
                lemma_extends_trans(pre, c1, catalog@);
                assert(season_chain_steps(
                    pre,
                    *trakt_show,
                    number,
                    catalog@,
                    Ok::<Media, ImportError>(se),
                    c1,
                    sh,
                    catalog@,
                    Ok::<Media, ImportError>(se),
                ));
            }
            Ok(se)
        },
        Err(e) => {
            crate::txn::abort_to_mark(catalog, &mark, Ghost(pre));
            proof {
                assert(season_chain_steps(
                    pre,
                    *trakt_show,
                    number,
                    catalog@,
                    Err::<Media, ImportError>(e),
                    c1,
                    sh,
                    c1,
                    Err::<Media, ImportError>(e),
                ));
            }
            Err(e)
        },
    }
}

// ---------------------------------------------------------------------
// Bulk import
// ---------------------------------------------------------------------

/// Imports the records of one watch-history file, in order: each record
/// is reconciled to its canonical entity, then one watch fact is
/// appended — no dedup, a re-import adds the facts again. The first
/// failing record aborts the rest of the batch; earlier records
/// persist, the failing record leaves nothing behind.
#[verifier::loop_isolation(false)]
pub fn import_watch_history(catalog: &mut Catalog, entries: &Vec<WatchHistoryEntry>) -> (r: Result<
    (),
    ImportError,
>)
    requires
        old(catalog)@.wf(),
    ensures
        final(catalog)@.wf(),
        match r {
            Ok(_) => import_watch_history_rel(old(catalog)@, entries@, final(catalog)@, Ok(())),
            Err(e) => import_watch_history_rel(old(catalog)@, entries@, final(catalog)@, Err(e)),
        },
{
    let ghost pre = catalog@;
    proof {
        assert(entries@.take(0).len() == 0);
    }
    let n = entries.len();
    let mut i: usize = 0;
    while i < n
        invariant
            i <= n,
            n == entries@.len(),
            catalog@.wf(),
            import_watch_history_rel(pre, entries@.take(i as int), catalog@, Ok(())),
        decreases n - i,
    {
        let ghost cur = catalog@;
        let entry = &entries[i];
        proof {
            assert(entries@.skip(i as int)[0] == entries@[i as int]);
            assert(entries@.skip(i as int).drop_first() =~= entries@.skip(i as int + 1));
            assert(entries@.take(i as int) + entries@.skip(i as int) =~= entries@);
        }
        let media = match resolve_watch_media(catalog, &entry.media) {
            Ok(m) => m,
            Err(e) => {
                proof {
                    assert(import_watch_history_rel(
                        cur,
                        entries@.skip(i as int),
                        catalog@,
                        Err::<(), ImportError>(e),
                    ));
                    lemma_import_history_compose(
                        pre,
                        entries@.take(i as int),
                        cur,
                        entries@.skip(i as int),
                        catalog@,
                        Err::<(), ImportError>(e),
                    );
                }
                return Err(e);
            },
        };
        let ghost mid = catalog@;
        match insert_watch_history(
            catalog,
            &WatchHistory { watched_at: entry.watched_at, media },
        ) {
            Ok(_) => {
                proof {
                    let one = seq![entries@[i as int]];
                    assert(one[0] == entries@[i as int]);
                    assert(one.drop_first().len() == 0);
                    assert(import_watch_history_rel(
                        catalog@,
                        one.drop_first(),
                        catalog@,
                        Ok::<(), ImportError>(()),
                    ));
                    assert(import_watch_history_rel(cur, one, catalog@, Ok::<(), ImportError>(())));
                    lemma_import_history_compose(
                        pre,
                        entries@.take(i as int),
                        cur,
                        one,
                        catalog@,
                        Ok::<(), ImportError>(()),
                    );
                    assert(entries@.take(i as int) + one =~= entries@.take(i as int + 1));
                }
            },
            Err(e) => {
                proof {
                    assert(import_watch_history_rel(
                        cur,
                        entries@.skip(i as int),
                        catalog@,
                        Err::<(), ImportError>(ImportError::WatchHistory(e)),
                    ));
                    lemma_import_history_compose(
                        pre,
                        entries@.take(i as int),
                        cur,
                        entries@.skip(i as int),
                        catalog@,
                        Err::<(), ImportError>(ImportError::WatchHistory(e)),
                    );
                }
                return Err(ImportError::WatchHistory(e));
            },
        }
        i += 1;
    }
    proof {
        assert(entries@.take(n as int) =~= entries@);
    }
    Ok(())
}

/// Imports the records of a watchlist file, in order, appending one
/// membership fact per record to the watchlist.
#[verifier::loop_isolation(false)]
pub fn import_watchlist(catalog: &mut Catalog, entries: &Vec<WatchlistEntry>) -> (r: Result<
    (),
    ImportError,
>)
    requires
        old(catalog)@.wf(),
    ensures
        final(catalog)@.wf(),
        match r {
            Ok(_) => import_watchlist_rel(old(catalog)@, entries@, final(catalog)@, Ok(())),
            Err(e) => import_watchlist_rel(old(catalog)@, entries@, final(catalog)@, Err(e)),
        },
{
    let ghost pre = catalog@;
    proof {
        assert(entries@.take(0).len() == 0);
    }
    let n = entries.len();
    let mut i: usize = 0;
    while i < n
        invariant
            i <= n,
            n == entries@.len(),
            catalog@.wf(),
            import_watchlist_rel(pre, entries@.take(i as int), catalog@, Ok(())),
        decreases n - i,
    {
        let ghost cur = catalog@;
        let entry = &entries[i];
        proof {
            assert(entries@.skip(i as int)[0] == entries@[i as int]);
            assert(entries@.skip(i as int).drop_first() =~= entries@.skip(i as int + 1));
            assert(entries@.take(i as int) + entries@.skip(i as int) =~= entries@);
        }
        let media = match resolve_list_media(catalog, &entry.media) {
            Ok(m) => m,
            Err(e) => {
                proof {
                    assert(import_watchlist_rel(
                        cur,
                        entries@.skip(i as int),
                        catalog@,
                        Err::<(), ImportError>(e),
                    ));
                    lemma_import_watchlist_compose(
                        pre,
                        entries@.take(i as int),
                        cur,
                        entries@.skip(i as int),
                        catalog@,
                        Err::<(), ImportError>(e),
                    );
                }
                return Err(e);
            },
        };
        let ghost mid = catalog@;
        match insert_list_item(catalog, 1, &media, Some(entry.listed_at)) {
            Ok(_) => {
                proof {
                    let one = seq![entries@[i as int]];
                    assert(one[0] == entries@[i as int]);
                    assert(one.drop_first().len() == 0);
                    assert(import_watchlist_rel(
                        catalog@,
                        one.drop_first(),
                        catalog@,
                        Ok::<(), ImportError>(()),
                    ));
                    assert(import_watchlist_rel(cur, one, catalog@, Ok::<(), ImportError>(())));
                    lemma_import_watchlist_compose(
                        pre,
                        entries@.take(i as int),
                        cur,
                        one,
                        catalog@,
                        Ok::<(), ImportError>(()),
                    );
                    assert(entries@.take(i as int) + one =~= entries@.take(i as int + 1));
                }
            },
            Err(e) => {
                proof {
                    assert(import_watchlist_rel(
                        cur,
                        entries@.skip(i as int),
                        catalog@,
                        Err::<(), ImportError>(ImportError::ListItem(e)),
                    ));
                    lemma_import_watchlist_compose(
                        pre,
                        entries@.take(i as int),
                        cur,
                        entries@.skip(i as int),
                        catalog@,
                        Err::<(), ImportError>(ImportError::ListItem(e)),
                    );
                }
                return Err(ImportError::ListItem(e));
            },
        }
        i += 1;
    }
    proof {
        assert(entries@.take(n as int) =~= entries@);
    }
    Ok(())
}

} // verus!
