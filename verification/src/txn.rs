//! The hierarchical insert transaction: one canonical entity, its
//! kind-detail row, optionally its external-identity mapping, and — for
//! shows — nested seasons and episodes, written as a single
//! all-or-nothing unit. On any failure at any step the whole unit is
//! rolled back: partial hierarchies are never observable.
//!
//! Each `insert_*` operation is specified by a model transition
//! (`insert_*_m`): the executable function either reaches exactly the
//! model's successor state or leaves the catalog exactly as it was.

use vstd::prelude::*;

use crate::db::create_media_m;
use crate::db::get_season_by_show_and_number;
use crate::db::has_episode_with_season_and_number;
use crate::db::has_show_row;
use crate::db::insert_media;
use crate::db::insert_media_external_id;
use crate::db::lemma_create_media_wf;
use crate::db::lemma_fresh_id_unused;
use crate::db::record_external_ids_m;
use crate::db::season_show_id;
use crate::db::episode_with_id;
use crate::db::episode_with_season_and_number;
use crate::db::movie_with_id;
use crate::db::season_with_id;
use crate::db::season_with_show_and_number;
use crate::db::show_with_id;
use crate::db::Catalog;
use crate::db::CatalogM;
use crate::db::EpisodeRow;
use crate::db::InsertMediaError;
use crate::db::InsertMediaExternalIdError;
use crate::db::Media;
use crate::db::MediaExternalId;
use crate::db::MediaKind;
use crate::db::MovieRow;
use crate::db::SeasonRow;
use crate::db::ShowRow;
use crate::scan::lemma_find_first_characterizes;
use crate::scan::lemma_find_first_push;

verus! {

// ---------------------------------------------------------------------
// Inputs
// ---------------------------------------------------------------------

/// Data of a movie to insert.
#[derive(Debug)]
pub struct NewMovie {
    pub title: String,
    pub release_year: i32,
    pub overview: Option<String>,
    pub tagline: Option<String>,
    pub runtime: Option<i32>,
    pub external_ids: Option<MediaExternalId>,
}

/// Data of a show to insert, optionally with nested seasons.
#[derive(Debug)]
pub struct NewShow {
    pub title: String,
    pub release_year: i32,
    pub overview: Option<String>,
    pub tagline: Option<String>,
    pub episode_runtime: Option<i32>,
    pub external_ids: Option<MediaExternalId>,
    pub seasons: Option<Vec<NewSeason>>,
}

/// Data of a season to insert, optionally with nested episodes.
#[derive(Debug)]
pub struct NewSeason {
    pub title: String,
    pub number: i32,
    pub overview: Option<String>,
    pub external_ids: Option<MediaExternalId>,
    pub episodes: Option<Vec<NewEpisode>>,
}

/// Data of an episode to insert.
#[derive(Debug)]
pub struct NewEpisode {
    pub title: String,
    pub number: i32,
    pub overview: Option<String>,
    pub runtime: Option<i32>,
    pub external_ids: Option<MediaExternalId>,
}

// ---------------------------------------------------------------------
// Errors: one kind per failing step, so callers can tell retriable
// failures from bad input
// ---------------------------------------------------------------------

/// Why an episode detail row could not be written.
#[derive(Clone, Copy, Debug, PartialEq, Eq, Structural)]
pub enum EpisodeRowError {
    /// The owning show does not exist.
    ShowNotFound,
    /// The owning season does not exist, or belongs to another show.
    SeasonNotFound,
    /// The season already has an episode with this number.
    DuplicateNumber,
}

/// Why a season detail row could not be written.
#[derive(Clone, Copy, Debug, PartialEq, Eq, Structural)]
pub enum SeasonRowError {
    /// The owning show does not exist.
    ShowNotFound,
    /// The show already has a season with this number.
    DuplicateNumber,
}

#[derive(Clone, Copy, Debug, PartialEq, Eq, Structural)]
pub enum InsertMovieError {
    InsertMedia(InsertMediaError),
    InsertMediaExternalId(InsertMediaExternalIdError),
}

#[derive(Clone, Copy, Debug, PartialEq, Eq, Structural)]
pub enum InsertEpisodeError {
    InsertMedia(InsertMediaError),
    InsertMediaExternalId(InsertMediaExternalIdError),
    InsertEpisode(EpisodeRowError),
}

#[derive(Clone, Copy, Debug, PartialEq, Eq, Structural)]
pub enum InsertSeasonError {
    InsertMedia(InsertMediaError),
    InsertMediaExternalId(InsertMediaExternalIdError),
    InsertSeason(SeasonRowError),
    InsertEpisode(InsertEpisodeError),
}

#[derive(Clone, Copy, Debug, PartialEq, Eq, Structural)]
pub enum InsertShowError {
    InsertMedia(InsertMediaError),
    InsertMediaExternalId(InsertMediaExternalIdError),
    InsertSeason(InsertSeasonError),
}

// ---------------------------------------------------------------------
// Transaction scope: marks and rollback
// ---------------------------------------------------------------------

/// `b` is `a` plus appended canonical rows: nothing removed, nothing
/// rewritten, the ledger untouched.
pub open spec fn extends_catalog(a: CatalogM, b: CatalogM) -> bool {
    &&& a.media.len() <= b.media.len() && b.media.subrange(0, a.media.len() as int) == a.media
    &&& a.movies.len() <= b.movies.len() && b.movies.subrange(0, a.movies.len() as int) == a.movies
    &&& a.shows.len() <= b.shows.len() && b.shows.subrange(0, a.shows.len() as int) == a.shows
    &&& a.seasons.len() <= b.seasons.len() && b.seasons.subrange(0, a.seasons.len() as int)
        == a.seasons
    &&& a.episodes.len() <= b.episodes.len() && b.episodes.subrange(0, a.episodes.len() as int)
        == a.episodes
    &&& a.external_ids.len() <= b.external_ids.len() && b.external_ids.subrange(
        0,
        a.external_ids.len() as int,
    ) == a.external_ids
    &&& a.next_id <= b.next_id
    &&& b.watch_history == a.watch_history
    &&& b.list_items == a.list_items
}

/// `b` is `a` plus appended canonical rows; the ledger may differ. What
/// watch-fact appends preserve.
pub open spec fn extends_canonical(a: CatalogM, b: CatalogM) -> bool {
    &&& a.media.len() <= b.media.len() && b.media.subrange(0, a.media.len() as int) == a.media
    &&& a.movies.len() <= b.movies.len() && b.movies.subrange(0, a.movies.len() as int) == a.movies
    &&& a.shows.len() <= b.shows.len() && b.shows.subrange(0, a.shows.len() as int) == a.shows
    &&& a.seasons.len() <= b.seasons.len() && b.seasons.subrange(0, a.seasons.len() as int)
        == a.seasons
    &&& a.episodes.len() <= b.episodes.len() && b.episodes.subrange(0, a.episodes.len() as int)
        == a.episodes
    &&& a.external_ids.len() <= b.external_ids.len() && b.external_ids.subrange(
        0,
        a.external_ids.len() as int,
    ) == a.external_ids
    &&& a.next_id <= b.next_id
}

pub proof fn lemma_extends_weaken(a: CatalogM, b: CatalogM)
    requires
        extends_catalog(a, b),
    ensures
        extends_canonical(a, b),
{
}

pub proof fn lemma_extends_canonical_trans(a: CatalogM, b: CatalogM, c: CatalogM)
    requires
        extends_canonical(a, b),
        extends_canonical(b, c),
    ensures
        extends_canonical(a, c),
{
    assert(c.media.subrange(0, a.media.len() as int) =~= b.media.subrange(
        0,
        a.media.len() as int,
    ));
    assert(c.movies.subrange(0, a.movies.len() as int) =~= b.movies.subrange(
        0,
        a.movies.len() as int,
    ));
    assert(c.shows.subrange(0, a.shows.len() as int) =~= b.shows.subrange(
        0,
        a.shows.len() as int,
    ));
    assert(c.seasons.subrange(0, a.seasons.len() as int) =~= b.seasons.subrange(
        0,
        a.seasons.len() as int,
    ));
    assert(c.episodes.subrange(0, a.episodes.len() as int) =~= b.episodes.subrange(
        0,
        a.episodes.len() as int,
    ));
    assert(c.external_ids.subrange(0, a.external_ids.len() as int) =~= b.external_ids.subrange(
        0,
        a.external_ids.len() as int,
    ));
}

/// Appending canonical rows disturbs no lookup that already succeeds:
/// entities, tracker ids and (show, number) season keys keep resolving
/// to the same rows.
pub proof fn lemma_lookup_monotone(a: CatalogM, b: CatalogM)
    requires
        extends_canonical(a, b),
    ensures
        forall|id: i32|
            a.media_by_id(id) is Some ==> #[trigger] b.media_by_id(id) == a.media_by_id(id),
        forall|t: i32|
            a.media_by_trakt(t) is Some ==> #[trigger] b.media_by_trakt(t) == a.media_by_trakt(t),
        forall|sid: i32, n: i32|
            a.season_by_show_and_number(sid, n) is Some ==> #[trigger] b.season_by_show_and_number(
                sid,
                n,
            ) == a.season_by_show_and_number(sid, n),
{
    assert(b.media =~= a.media + b.media.skip(a.media.len() as int));
    assert(b.external_ids =~= a.external_ids + b.external_ids.skip(a.external_ids.len() as int));
    assert(b.seasons =~= a.seasons + b.seasons.skip(a.seasons.len() as int));
    assert forall|id: i32| a.media_by_id(id) is Some implies #[trigger] b.media_by_id(id)
        == a.media_by_id(id) by {
        crate::scan::lemma_find_first_concat(
            a.media,
            b.media.skip(a.media.len() as int),
            crate::db::media_with_id(id),
        );
    }
    assert forall|t: i32| a.media_by_trakt(t) is Some implies #[trigger] b.media_by_trakt(t)
        == a.media_by_trakt(t) by {
        crate::scan::lemma_find_first_concat(
            a.external_ids,
            b.external_ids.skip(a.external_ids.len() as int),
            crate::db::ext_with_trakt(t),
        );
        match a.ext_row_by_trakt(t) {
            Some(row) => {
                crate::scan::lemma_find_first_concat(
                    a.media,
                    b.media.skip(a.media.len() as int),
                    crate::db::media_with_id(row.media_id),
                );
            },
            None => {},
        }
    }
    assert forall|sid: i32, n: i32| a.season_by_show_and_number(sid, n) is Some implies #[trigger] b.season_by_show_and_number(
        sid,
        n,
    ) == a.season_by_show_and_number(sid, n) by {
        crate::scan::lemma_find_first_concat(
            a.seasons,
            b.seasons.skip(a.seasons.len() as int),
            crate::db::season_with_show_and_number(sid, n),
        );
    }
}

pub proof fn lemma_extends_trans(a: CatalogM, b: CatalogM, c: CatalogM)
    requires
        extends_catalog(a, b),
        extends_catalog(b, c),
    ensures
        extends_catalog(a, c),
{
    assert(c.media.subrange(0, a.media.len() as int) =~= b.media.subrange(
        0,
        a.media.len() as int,
    ));
    assert(c.movies.subrange(0, a.movies.len() as int) =~= b.movies.subrange(
        0,
        a.movies.len() as int,
    ));
    assert(c.shows.subrange(0, a.shows.len() as int) =~= b.shows.subrange(
        0,
        a.shows.len() as int,
    ));
    assert(c.seasons.subrange(0, a.seasons.len() as int) =~= b.seasons.subrange(
        0,
        a.seasons.len() as int,
    ));
    assert(c.episodes.subrange(0, a.episodes.len() as int) =~= b.episodes.subrange(
        0,
        a.episodes.len() as int,
    ));
    assert(c.external_ids.subrange(0, a.external_ids.len() as int) =~= b.external_ids.subrange(
        0,
        a.external_ids.len() as int,
    ));
}

/// The lengths of the canonical tables (and the next id) when a
/// transaction scope opened: what rollback restores.
pub(crate) struct TxnMark {
    pub(crate) media: usize,
    pub(crate) movies: usize,
    pub(crate) shows: usize,
    pub(crate) seasons: usize,
    pub(crate) episodes: usize,
    pub(crate) external_ids: usize,
    pub(crate) next_id: i32,
}

pub(crate) open spec fn mark_matches(mark: TxnMark, c: CatalogM) -> bool {
    &&& mark.media == c.media.len()
    &&& mark.movies == c.movies.len()
    &&& mark.shows == c.shows.len()
    &&& mark.seasons == c.seasons.len()
    &&& mark.episodes == c.episodes.len()
    &&& mark.external_ids == c.external_ids.len()
    &&& mark.next_id == c.next_id
}

pub(crate) fn take_mark(catalog: &Catalog) -> (mark: TxnMark)
    ensures
        mark_matches(mark, catalog@),
{
    TxnMark {
        media: catalog.media.len(),
        movies: catalog.movies.len(),
        shows: catalog.shows.len(),
        seasons: catalog.seasons.len(),
        episodes: catalog.episodes.len(),
        external_ids: catalog.external_ids.len(),
        next_id: catalog.next_id,
    }
}

/// Rolls the catalog back to the state a mark was taken in. Sound
/// because every write inside a transaction is an append.
pub(crate) fn abort_to_mark(catalog: &mut Catalog, mark: &TxnMark, Ghost(pre): Ghost<CatalogM>)
    requires
        mark_matches(*mark, pre),
        extends_catalog(pre, old(catalog)@),
    ensures
        final(catalog)@ == pre,
{
    catalog.media.truncate(mark.media);
    catalog.movies.truncate(mark.movies);
    catalog.shows.truncate(mark.shows);
    catalog.seasons.truncate(mark.seasons);
    catalog.episodes.truncate(mark.episodes);
    catalog.external_ids.truncate(mark.external_ids);
    catalog.next_id = mark.next_id;
    proof {
        assert(catalog@.media =~= pre.media);
        assert(catalog@.movies =~= pre.movies);
        assert(catalog@.shows =~= pre.shows);
        assert(catalog@.seasons =~= pre.seasons);
        assert(catalog@.episodes =~= pre.episodes);
        assert(catalog@.external_ids =~= pre.external_ids);
        assert(catalog@ =~= pre);
    }
}

// ---------------------------------------------------------------------
// Detail-row pushes preserve the invariant
// ---------------------------------------------------------------------

/// Appending a movie row for a fresh Movie entity.
pub proof fn lemma_movie_row_push(c: CatalogM, row: MovieRow)
    requires
        c.wf(),
        c.media_by_id(row.id) == Some(Media { id: row.id, kind: MediaKind::Movie }),
        c.movie_row(row.id) is None,
    ensures
        ({
            let post = CatalogM { movies: c.movies.push(row), ..c };
            &&& post.wf()
            &&& forall|id: i32| #[trigger] post.movie_row(id) == if id == row.id {
                Some(row)
            } else {
                c.movie_row(id)
            }
        }),
{
    let post = CatalogM { movies: c.movies.push(row), ..c };
    assert forall|id: i32| #[trigger] post.movie_row(id) == (if id == row.id {
        Some(row)
    } else {
        c.movie_row(id)
    }) by {
        lemma_find_first_push(c.movies, movie_with_id(id), row);
    }
    lemma_find_first_characterizes(c.movies, movie_with_id(row.id));
}

/// Appending a show row for a fresh Show entity.
pub proof fn lemma_show_row_push(c: CatalogM, row: ShowRow)
    requires
        c.wf(),
        c.media_by_id(row.id) == Some(Media { id: row.id, kind: MediaKind::Show }),
        c.show_row(row.id) is None,
    ensures
        ({
            let post = CatalogM { shows: c.shows.push(row), ..c };
            &&& post.wf()
            &&& forall|id: i32| #[trigger] post.show_row(id) == if id == row.id {
                Some(row)
            } else {
                c.show_row(id)
            }
        }),
{
    let post = CatalogM { shows: c.shows.push(row), ..c };
    assert forall|id: i32| #[trigger] post.show_row(id) == (if id == row.id {
        Some(row)
    } else {
        c.show_row(id)
    }) by {
        lemma_find_first_push(c.shows, show_with_id(id), row);
    }
    lemma_find_first_characterizes(c.shows, show_with_id(row.id));
    assert forall|i: int| 0 <= i < post.seasons.len() implies post.show_row(
        (#[trigger] post.seasons[i]).show_id,
    ) is Some by {}
    assert forall|i: int| 0 <= i < post.episodes.len() implies post.show_row(
        (#[trigger] post.episodes[i]).show_id,
    ) is Some by {}
}

/// Appending a season row for a fresh Season entity of an existing show
/// and a number the show does not use yet.
pub proof fn lemma_season_row_push(c: CatalogM, row: SeasonRow)
    requires
        c.wf(),
        c.media_by_id(row.id) == Some(Media { id: row.id, kind: MediaKind::Season }),
        c.season_row(row.id) is None,
        c.show_row(row.show_id) is Some,
        c.season_by_show_and_number(row.show_id, row.number) is None,
    ensures
        ({
            let post = CatalogM { seasons: c.seasons.push(row), ..c };
            &&& post.wf()
            &&& forall|id: i32| #[trigger] post.season_row(id) == if id == row.id {
                Some(row)
            } else {
                c.season_row(id)
            }
            &&& forall|sid: i32, n: i32| #[trigger] post.season_by_show_and_number(sid, n) == if sid
                == row.show_id && n == row.number {
                Some(row)
            } else {
                c.season_by_show_and_number(sid, n)
            }
        }),
{
    let post = CatalogM { seasons: c.seasons.push(row), ..c };
    assert forall|id: i32| #[trigger] post.season_row(id) == (if id == row.id {
        Some(row)
    } else {
        c.season_row(id)
    }) by {
        lemma_find_first_push(c.seasons, season_with_id(id), row);
    }
    assert forall|sid: i32, n: i32| #[trigger] post.season_by_show_and_number(sid, n) == (if sid
        == row.show_id && n == row.number {
        Some(row)
    } else {
        c.season_by_show_and_number(sid, n)
    }) by {
        lemma_find_first_push(c.seasons, season_with_show_and_number(sid, n), row);
    }
    lemma_find_first_characterizes(c.seasons, season_with_id(row.id));
    lemma_find_first_characterizes(c.seasons, season_with_show_and_number(row.show_id, row.number));
    assert forall|i: int| 0 <= i < post.episodes.len() implies match post.season_row(
        (#[trigger] post.episodes[i]).season_id,
    ) {
        Some(se) => se.show_id == post.episodes[i].show_id,
        None => false,
    } by {
        assert(c.season_row(c.episodes[i].season_id) is Some);
    }
}

/// Appending an episode row for a fresh Episode entity of an existing
/// show and season pair, with an unused number.
pub proof fn lemma_episode_row_push(c: CatalogM, row: EpisodeRow)
    requires
        c.wf(),
        c.media_by_id(row.id) == Some(Media { id: row.id, kind: MediaKind::Episode }),
        c.episode_row(row.id) is None,
        c.show_row(row.show_id) is Some,
        match c.season_row(row.season_id) {
            Some(se) => se.show_id == row.show_id,
            None => false,
        },
        c.episode_by_season_and_number(row.season_id, row.number) is None,
    ensures
        ({
            let post = CatalogM { episodes: c.episodes.push(row), ..c };
            &&& post.wf()
            &&& forall|id: i32| #[trigger] post.episode_row(id) == if id == row.id {
                Some(row)
            } else {
                c.episode_row(id)
            }
            &&& forall|sid: i32, n: i32| #[trigger] post.episode_by_season_and_number(sid, n)
                == if sid == row.season_id && n == row.number {
                Some(row)
            } else {
                c.episode_by_season_and_number(sid, n)
            }
        }),
{
    let post = CatalogM { episodes: c.episodes.push(row), ..c };
    assert forall|id: i32| #[trigger] post.episode_row(id) == (if id == row.id {
        Some(row)
    } else {
        c.episode_row(id)
    }) by {
        lemma_find_first_push(c.episodes, episode_with_id(id), row);
    }
    assert forall|sid: i32, n: i32| #[trigger] post.episode_by_season_and_number(sid, n) == (if sid
        == row.season_id && n == row.number {
        Some(row)
    } else {
        c.episode_by_season_and_number(sid, n)
    }) by {
        lemma_find_first_push(c.episodes, episode_with_season_and_number(sid, n), row);
    }
    lemma_find_first_characterizes(c.episodes, episode_with_id(row.id));
    lemma_find_first_characterizes(
        c.episodes,
        episode_with_season_and_number(row.season_id, row.number),
    );
}

// ---------------------------------------------------------------------
// Model transitions
// ---------------------------------------------------------------------

/// Model of `insert_movie`: media row, optional mapping, detail row.
pub open spec fn insert_movie_m(c: CatalogM, nm: NewMovie) -> Result<
    (CatalogM, Media),
    InsertMovieError,
> {
    match create_media_m(c, MediaKind::Movie) {
        Err(e) => Err(InsertMovieError::InsertMedia(e)),
        Ok((c1, m)) => {
            let c2r = match nm.external_ids {
                Some(ids) => record_external_ids_m(c1, m, ids),
                None => Ok(c1),
            };
            match c2r {
                Err(e) => Err(InsertMovieError::InsertMediaExternalId(e)),
                Ok(c2) => Ok(
                    (
                        CatalogM {
                            movies: c2.movies.push(
                                MovieRow {
                                    id: m.id,
                                    title: nm.title,
                                    release_year: nm.release_year,
                                    overview: nm.overview,
                                    tagline: nm.tagline,
                                    runtime: nm.runtime,
                                },
                            ),
                            ..c2
                        },
                        m,
                    ),
                ),
            }
        },
    }
}

/// Model of `insert_episode`: media row, optional mapping, then the
/// detail row if show and season line up and the number is free.
pub open spec fn insert_episode_m(
    c: CatalogM,
    show: Media,
    season: Media,
    ne: NewEpisode,
) -> Result<(CatalogM, Media), InsertEpisodeError> {
    match create_media_m(c, MediaKind::Episode) {
        Err(e) => Err(InsertEpisodeError::InsertMedia(e)),
        Ok((c1, m)) => {
            let c2r = match ne.external_ids {
                Some(ids) => record_external_ids_m(c1, m, ids),
                None => Ok(c1),
            };
            match c2r {
                Err(e) => Err(InsertEpisodeError::InsertMediaExternalId(e)),
                Ok(c2) => {
                    if c2.show_row(show.id) is None {
                        Err(InsertEpisodeError::InsertEpisode(EpisodeRowError::ShowNotFound))
                    } else if !match c2.season_row(season.id) {
                        Some(se) => se.show_id == show.id,
                        None => false,
                    } {
                        Err(InsertEpisodeError::InsertEpisode(EpisodeRowError::SeasonNotFound))
                    } else if c2.episode_by_season_and_number(season.id, ne.number) is Some {
                        Err(InsertEpisodeError::InsertEpisode(EpisodeRowError::DuplicateNumber))
                    } else {
                        Ok(
                            (
                                CatalogM {
                                    episodes: c2.episodes.push(
                                        EpisodeRow {
                                            show_id: show.id,
                                            season_id: season.id,
                                            id: m.id,
                                            title: ne.title,
                                            number: ne.number,
                                            overview: ne.overview,
                                            runtime: ne.runtime,
                                        },
                                    ),
                                    ..c2
                                },
                                m,
                            ),
                        )
                    }
                },
            }
        },
    }
}

/// Model of inserting a list of episodes in order, stopping at the
/// first failure.
pub open spec fn insert_episodes_m(
    c: CatalogM,
    show: Media,
    season: Media,
    eps: Seq<NewEpisode>,
) -> Result<CatalogM, InsertEpisodeError>
    decreases eps.len(),
{
    if eps.len() <= 0 {
        Ok(c)
    } else {
        match insert_episode_m(c, show, season, eps[0]) {
            Err(e) => Err(e),
            Ok((c1, _m)) => insert_episodes_m(c1, show, season, eps.drop_first()),
        }
    }
}

/// Model of `insert_season`: media row, optional mapping, the detail
/// row if the show exists and the number is free, then nested episodes.
pub open spec fn insert_season_m(c: CatalogM, show: Media, ns: NewSeason) -> Result<
    (CatalogM, Media),
    InsertSeasonError,
> {
    match create_media_m(c, MediaKind::Season) {
        Err(e) => Err(InsertSeasonError::InsertMedia(e)),
        Ok((c1, m)) => {
            let c2r = match ns.external_ids {
                Some(ids) => record_external_ids_m(c1, m, ids),
                None => Ok(c1),
            };
            match c2r {
                Err(e) => Err(InsertSeasonError::InsertMediaExternalId(e)),
                Ok(c2) => {
                    if c2.show_row(show.id) is None {
                        Err(InsertSeasonError::InsertSeason(SeasonRowError::ShowNotFound))
                    } else if c2.season_by_show_and_number(show.id, ns.number) is Some {
                        Err(InsertSeasonError::InsertSeason(SeasonRowError::DuplicateNumber))
                    } else {
                        let c3 = CatalogM {
                            seasons: c2.seasons.push(
                                SeasonRow {
                                    show_id: show.id,
                                    id: m.id,
                                    title: ns.title,
                                    number: ns.number,
                                    overview: ns.overview,
                                },
                            ),
                            ..c2
                        };
                        match ns.episodes {
                            None => Ok((c3, m)),
                            Some(eps) => match insert_episodes_m(c3, show, m, eps@) {
                                Ok(c4) => Ok((c4, m)),
                                Err(e) => Err(InsertSeasonError::InsertEpisode(e)),
                            },
                        }
                    }
                },
            }
        },
    }
}

/// Model of inserting a list of seasons in order, stopping at the first
/// failure.
pub open spec fn insert_seasons_m(c: CatalogM, show: Media, list: Seq<NewSeason>) -> Result<
    CatalogM,
    InsertSeasonError,
>
    decreases list.len(),
{
    if list.len() <= 0 {
        Ok(c)
    } else {
        match insert_season_m(c, show, list[0]) {
            Err(e) => Err(e),
            Ok((c1, _m)) => insert_seasons_m(c1, show, list.drop_first()),
        }
    }
}

/// Every catalog extends itself.
pub proof fn lemma_extends_refl(c: CatalogM)
    ensures
        extends_catalog(c, c),
{
    assert(c.media.subrange(0, c.media.len() as int) =~= c.media);
    assert(c.movies.subrange(0, c.movies.len() as int) =~= c.movies);
    assert(c.shows.subrange(0, c.shows.len() as int) =~= c.shows);
    assert(c.seasons.subrange(0, c.seasons.len() as int) =~= c.seasons);
    assert(c.episodes.subrange(0, c.episodes.len() as int) =~= c.episodes);
    assert(c.external_ids.subrange(0, c.external_ids.len() as int) =~= c.external_ids);
}

/// A successful episode insert only appends.
pub proof fn lemma_insert_episode_m_extends(c: CatalogM, show: Media, season: Media, ne: NewEpisode)
    ensures
        insert_episode_m(c, show, season, ne) matches Ok(p) ==> extends_catalog(c, p.0),
{
    match create_media_m(c, MediaKind::Episode) {
        Err(_) => {},
        Ok((c1, m)) => {
            let c2r = match ne.external_ids {
                Some(ids) => record_external_ids_m(c1, m, ids),
                None => Ok(c1),
            };
            match c2r {
                Err(_) => {},
                Ok(c2) => {
                    match insert_episode_m(c, show, season, ne) {
                        Err(_) => {},
                        Ok((post, _)) => {
                            assert(post.media.subrange(0, c.media.len() as int) =~= c.media);
                            assert(post.movies.subrange(0, c.movies.len() as int) =~= c.movies);
                            assert(post.shows.subrange(0, c.shows.len() as int) =~= c.shows);
                            assert(post.seasons.subrange(0, c.seasons.len() as int) =~= c.seasons);
                            assert(post.episodes.subrange(0, c.episodes.len() as int)
                                =~= c.episodes);
                            assert(post.external_ids.subrange(0, c.external_ids.len() as int)
                                =~= c.external_ids);
                        },
                    }
                },
            }
        },
    }
}

/// A successful run of episode inserts only appends.
pub proof fn lemma_insert_episodes_m_extends(
    c: CatalogM,
    show: Media,
    season: Media,
    eps: Seq<NewEpisode>,
)
    ensures
        insert_episodes_m(c, show, season, eps) matches Ok(p) ==> extends_catalog(c, p),
    decreases eps.len(),
{
    if eps.len() <= 0 {
        lemma_extends_refl(c);
    } else {
        match insert_episode_m(c, show, season, eps[0]) {
            Err(_) => {},
            Ok((c1, _)) => {
                lemma_insert_episode_m_extends(c, show, season, eps[0]);
                lemma_insert_episodes_m_extends(c1, show, season, eps.drop_first());
                match insert_episodes_m(c1, show, season, eps.drop_first()) {
                    Err(_) => {},
                    Ok(c2) => {
                        lemma_extends_trans(c, c1, c2);
                    },
                }
            },
        }
    }
}

/// A successful season insert only appends.
pub proof fn lemma_insert_season_m_extends(c: CatalogM, show: Media, ns: NewSeason)
    ensures
        insert_season_m(c, show, ns) matches Ok(p) ==> extends_catalog(c, p.0),
{
    match create_media_m(c, MediaKind::Season) {
        Err(_) => {},
        Ok((c1, m)) => {
            let c2r = match ns.external_ids {
                Some(ids) => record_external_ids_m(c1, m, ids),
                None => Ok(c1),
            };
            match c2r {
                Err(_) => {},
                Ok(c2) => {
                    if c2.show_row(show.id) is None {
                    } else if c2.season_by_show_and_number(show.id, ns.number) is Some {
                    } else {
                        let c3 = CatalogM {
                            seasons: c2.seasons.push(
                                SeasonRow {
                                    show_id: show.id,
                                    id: m.id,
                                    title: ns.title,
                                    number: ns.number,
                                    overview: ns.overview,
                                },
                            ),
                            ..c2
                        };
                        assert(c3.media.subrange(0, c.media.len() as int) =~= c.media);
                        assert(c3.movies.subrange(0, c.movies.len() as int) =~= c.movies);
                        assert(c3.shows.subrange(0, c.shows.len() as int) =~= c.shows);
                        assert(c3.seasons.subrange(0, c.seasons.len() as int) =~= c.seasons);
                        assert(c3.episodes.subrange(0, c.episodes.len() as int) =~= c.episodes);
                        assert(c3.external_ids.subrange(0, c.external_ids.len() as int)
                            =~= c.external_ids);
                        assert(extends_catalog(c, c3));
                        match ns.episodes {
                            None => {},
                            Some(eps) => {
                                lemma_insert_episodes_m_extends(c3, show, m, eps@);
                                match insert_episodes_m(c3, show, m, eps@) {
                                    Err(_) => {},
                                    Ok(c4) => {
                                        lemma_extends_trans(c, c3, c4);
                                    },
                                }
                            },
                        }
                    }
                },
            }
        },
    }
}

/// A successful run of season inserts only appends.
pub proof fn lemma_insert_seasons_m_extends(c: CatalogM, show: Media, list: Seq<NewSeason>)
    ensures
        insert_seasons_m(c, show, list) matches Ok(p) ==> extends_catalog(c, p),
    decreases list.len(),
{
    if list.len() <= 0 {
        lemma_extends_refl(c);
    } else {
        match insert_season_m(c, show, list[0]) {
            Err(_) => {},
            Ok((c1, _)) => {
                lemma_insert_season_m_extends(c, show, list[0]);
                lemma_insert_seasons_m_extends(c1, show, list.drop_first());
                match insert_seasons_m(c1, show, list.drop_first()) {
                    Err(_) => {},
                    Ok(c2) => {
                        lemma_extends_trans(c, c1, c2);
                    },
                }
            },
        }
    }
}

/// Model of `insert_show`: media row, optional mapping, detail row,
/// then nested seasons in the same unit.
pub open spec fn insert_show_m(c: CatalogM, ns: NewShow) -> Result<
    (CatalogM, Media),
    InsertShowError,
> {
    match create_media_m(c, MediaKind::Show) {
        Err(e) => Err(InsertShowError::InsertMedia(e)),
        Ok((c1, m)) => {
            let c2r = match ns.external_ids {
                Some(ids) => record_external_ids_m(c1, m, ids),
                None => Ok(c1),
            };
            match c2r {
                Err(e) => Err(InsertShowError::InsertMediaExternalId(e)),
                Ok(c2) => {
                    let c3 = CatalogM {
                        shows: c2.shows.push(
                            ShowRow {
                                id: m.id,
                                title: ns.title,
                                release_year: ns.release_year,
                                overview: ns.overview,
                                tagline: ns.tagline,
                                episode_runtime: ns.episode_runtime,
                            },
                        ),
                        ..c2
                    };
                    match ns.seasons {
                        None => Ok((c3, m)),
                        Some(list) => match insert_seasons_m(c3, m, list@) {
                            Ok(c4) => Ok((c4, m)),
                            Err(e) => Err(InsertShowError::InsertSeason(e)),
                        },
                    }
                },
            }
        },
    }
}

/// A successful movie insert only appends.
pub proof fn lemma_insert_movie_m_extends(c: CatalogM, nm: NewMovie)
    ensures
        insert_movie_m(c, nm) matches Ok(p) ==> extends_catalog(c, p.0),
{
    match create_media_m(c, MediaKind::Movie) {
        Err(_) => {},
        Ok((c1, m)) => {
            let c2r = match nm.external_ids {
                Some(ids) => record_external_ids_m(c1, m, ids),
                None => Ok(c1),
            };
            match c2r {
                Err(_) => {},
                Ok(c2) => {
                    match insert_movie_m(c, nm) {
                        Err(_) => {},
                        Ok((post, _)) => {
                            assert(post.media.subrange(0, c.media.len() as int) =~= c.media);
                            assert(post.movies.subrange(0, c.movies.len() as int) =~= c.movies);
                            assert(post.shows.subrange(0, c.shows.len() as int) =~= c.shows);
                            assert(post.seasons.subrange(0, c.seasons.len() as int) =~= c.seasons);
                            assert(post.episodes.subrange(0, c.episodes.len() as int)
                                =~= c.episodes);
                            assert(post.external_ids.subrange(0, c.external_ids.len() as int)
                                =~= c.external_ids);
                        },
                    }
                },
            }
        },
    }
}

/// A successful show insert, nested seasons included, only appends.
pub proof fn lemma_insert_show_m_extends(c: CatalogM, ns: NewShow)
    ensures
        insert_show_m(c, ns) matches Ok(p) ==> extends_catalog(c, p.0),
{
    match create_media_m(c, MediaKind::Show) {
        Err(_) => {},
        Ok((c1, m)) => {
            let c2r = match ns.external_ids {
                Some(ids) => record_external_ids_m(c1, m, ids),
                None => Ok(c1),
            };
            match c2r {
                Err(_) => {},
                Ok(c2) => {
                    let c3 = CatalogM {
                        shows: c2.shows.push(
                            ShowRow {
                                id: m.id,
                                title: ns.title,
                                release_year: ns.release_year,
                                overview: ns.overview,
                                tagline: ns.tagline,
                                episode_runtime: ns.episode_runtime,
                            },
                        ),
                        ..c2
                    };
                    assert(c3.media.subrange(0, c.media.len() as int) =~= c.media);
                    assert(c3.movies.subrange(0, c.movies.len() as int) =~= c.movies);
                    assert(c3.shows.subrange(0, c.shows.len() as int) =~= c.shows);
                    assert(c3.seasons.subrange(0, c.seasons.len() as int) =~= c.seasons);
                    assert(c3.episodes.subrange(0, c.episodes.len() as int) =~= c.episodes);
                    assert(c3.external_ids.subrange(0, c.external_ids.len() as int)
                        =~= c.external_ids);
                    assert(extends_catalog(c, c3));
                    match ns.seasons {
                        None => {},
                        Some(list) => {
                            lemma_insert_seasons_m_extends(c3, m, list@);
                            match insert_seasons_m(c3, m, list@) {
                                Err(_) => {},
                                Ok(c4) => {
                                    lemma_extends_trans(c, c3, c4);
                                },
                            }
                        },
                    }
                },
            }
        },
    }
}

// ---------------------------------------------------------------------
// Executable inserts
// ---------------------------------------------------------------------

/// Inserts a movie as one atomic unit: its canonical entity, its
/// external-id mapping when supplied, and its detail row. On any
/// failure the whole unit rolls back and the catalog is unchanged.
pub fn insert_movie(catalog: &mut Catalog, new_movie: NewMovie) -> (r: Result<
    Media,
    InsertMovieError,
>)
    requires
        old(catalog)@.wf(),
    ensures
        final(catalog)@.wf(),
        match r {
            Ok(m) => insert_movie_m(old(catalog)@, new_movie) == Ok::<_, InsertMovieError>(
                (final(catalog)@, m),
            ),
            Err(e) => final(catalog)@ == old(catalog)@ && insert_movie_m(old(catalog)@, new_movie)
                == Err::<(CatalogM, Media), _>(e),
        },
{
    let ghost pre = catalog@;
    let mark = take_mark(catalog);
    let NewMovie { title, release_year, overview, tagline, runtime, external_ids } = new_movie;
    let m = match insert_media(catalog, MediaKind::Movie) {
        Ok(m) => m,
        Err(e) => {
            return Err(InsertMovieError::InsertMedia(e));
        },
    };
    let ghost c1 = catalog@;
    match external_ids {
        Some(ids) => {
            match insert_media_external_id(catalog, &m, ids) {
                Ok(_) => {},
                Err(e) => {
                    proof {
                        lemma_extends_refl(pre);
                        assert(catalog@.media.subrange(0, pre.media.len() as int) =~= pre.media);
                        assert(catalog@.external_ids.subrange(0, pre.external_ids.len() as int)
                            =~= pre.external_ids);
                        assert(extends_catalog(pre, catalog@));
                    }
                    abort_to_mark(catalog, &mark, Ghost(pre));
                    return Err(InsertMovieError::InsertMediaExternalId(e));
                },
            }
        },
        None => {},
    }
    let ghost c2 = catalog@;
    let row = MovieRow { id: m.id, title, release_year, overview, tagline, runtime };
    proof {
        lemma_fresh_id_unused(pre, m.id);
        lemma_create_media_wf(pre, MediaKind::Movie);
        assert(c2.media_by_id(m.id) == Some(m));
        assert(c2.movie_row(m.id) is None);
        lemma_movie_row_push(c2, row);
    }
    catalog.movies.push(row);
    proof {
        assert(catalog@ =~= CatalogM { movies: c2.movies.push(row), ..c2 });
    }
    Ok(m)
}

/// Inserts an episode of an existing show and season as one atomic
/// unit. On any failure the whole unit rolls back.
pub fn insert_episode(
    catalog: &mut Catalog,
    show: &Media,
    season: &Media,
    new_episode: NewEpisode,
) -> (r: Result<Media, InsertEpisodeError>)
    requires
        old(catalog)@.wf(),
    ensures
        final(catalog)@.wf(),
        match r {
            Ok(m) => insert_episode_m(old(catalog)@, *show, *season, new_episode) == Ok::<
                _,
                InsertEpisodeError,
            >((final(catalog)@, m)),
            Err(e) => final(catalog)@ == old(catalog)@ && insert_episode_m(
                old(catalog)@,
                *show,
                *season,
                new_episode,
            ) == Err::<(CatalogM, Media), _>(e),
        },
{
    let ghost pre = catalog@;
    let mark = take_mark(catalog);
    let NewEpisode { title, number, overview, runtime, external_ids } = new_episode;
    let m = match insert_media(catalog, MediaKind::Episode) {
        Ok(m) => m,
        Err(e) => {
            return Err(InsertEpisodeError::InsertMedia(e));
        },
    };
    match external_ids {
        Some(ids) => {
            match insert_media_external_id(catalog, &m, ids) {
                Ok(_) => {},
                Err(e) => {
                    proof {
                        lemma_extends_refl(pre);
                        assert(catalog@.media.subrange(0, pre.media.len() as int) =~= pre.media);
                        assert(catalog@.external_ids.subrange(0, pre.external_ids.len() as int)
                            =~= pre.external_ids);
                        assert(extends_catalog(pre, catalog@));
                    }
                    abort_to_mark(catalog, &mark, Ghost(pre));
                    return Err(InsertEpisodeError::InsertMediaExternalId(e));
                },
            }
        },
        None => {},
    }
    let ghost c2 = catalog@;
    proof {
        lemma_extends_refl(pre);
        assert(catalog@.media.subrange(0, pre.media.len() as int) =~= pre.media);
        assert(catalog@.external_ids.subrange(0, pre.external_ids.len() as int)
            =~= pre.external_ids);
        assert(extends_catalog(pre, catalog@));
    }
    if !has_show_row(catalog, show.id) {
        abort_to_mark(catalog, &mark, Ghost(pre));
        return Err(InsertEpisodeError::InsertEpisode(EpisodeRowError::ShowNotFound));
    }
    let season_ok = match season_show_id(catalog, season.id) {
        Some(sid) => sid == show.id,
        None => false,
    };
    if !season_ok {
        abort_to_mark(catalog, &mark, Ghost(pre));
        return Err(InsertEpisodeError::InsertEpisode(EpisodeRowError::SeasonNotFound));
    }
    if has_episode_with_season_and_number(catalog, season.id, number) {
        abort_to_mark(catalog, &mark, Ghost(pre));
        return Err(InsertEpisodeError::InsertEpisode(EpisodeRowError::DuplicateNumber));
    }
    let row = EpisodeRow {
        show_id: show.id,
        season_id: season.id,
        id: m.id,
        title,
        number,
        overview,
        runtime,
    };
    proof {
        lemma_fresh_id_unused(pre, m.id);
        lemma_create_media_wf(pre, MediaKind::Episode);
        assert(c2.media_by_id(m.id) == Some(m));
        assert(c2.episode_row(m.id) is None);
        lemma_episode_row_push(c2, row);
    }
    catalog.episodes.push(row);
    proof {
        assert(catalog@ =~= CatalogM { episodes: c2.episodes.push(row), ..c2 });
    }
    Ok(m)
}

/// Inserts a season of an existing show as one atomic unit, cascading
/// into its nested episodes inside the same unit. On any failure —
/// including a failure on any nested episode — the whole unit rolls
/// back.
#[verifier::loop_isolation(false)]
pub fn insert_season(catalog: &mut Catalog, show: &Media, new_season: NewSeason) -> (r: Result<
    Media,
    InsertSeasonError,
>)
    requires
        old(catalog)@.wf(),
    ensures
        final(catalog)@.wf(),
        match r {
            Ok(m) => insert_season_m(old(catalog)@, *show, new_season) == Ok::<
                _,
                InsertSeasonError,
            >((final(catalog)@, m)),
            Err(e) => final(catalog)@ == old(catalog)@ && insert_season_m(
                old(catalog)@,
                *show,
                new_season,
            ) == Err::<(CatalogM, Media), _>(e),
        },
{
    let ghost pre = catalog@;
    let mark = take_mark(catalog);
    let NewSeason { title, number, overview, external_ids, episodes } = new_season;
    let m = match insert_media(catalog, MediaKind::Season) {
        Ok(m) => m,
        Err(e) => {
            return Err(InsertSeasonError::InsertMedia(e));
        },
    };
    match external_ids {
        Some(ids) => {
            match insert_media_external_id(catalog, &m, ids) {
                Ok(_) => {},
                Err(e) => {
                    proof {
                        lemma_extends_refl(pre);
                        assert(catalog@.media.subrange(0, pre.media.len() as int) =~= pre.media);
                        assert(catalog@.external_ids.subrange(0, pre.external_ids.len() as int)
                            =~= pre.external_ids);
                        assert(extends_catalog(pre, catalog@));
                    }
                    abort_to_mark(catalog, &mark, Ghost(pre));
                    return Err(InsertSeasonError::InsertMediaExternalId(e));
                },
            }
        },
        None => {},
    }
    let ghost c2 = catalog@;
    proof {
        lemma_extends_refl(pre);
        assert(catalog@.media.subrange(0, pre.media.len() as int) =~= pre.media);
        assert(catalog@.external_ids.subrange(0, pre.external_ids.len() as int)
            =~= pre.external_ids);
        assert(extends_catalog(pre, catalog@));
    }
    if !has_show_row(catalog, show.id) {
        abort_to_mark(catalog, &mark, Ghost(pre));
        return Err(InsertSeasonError::InsertSeason(SeasonRowError::ShowNotFound));
    }
    if get_season_by_show_and_number(catalog, show, number).is_some() {
        abort_to_mark(catalog, &mark, Ghost(pre));
        return Err(InsertSeasonError::InsertSeason(SeasonRowError::DuplicateNumber));
    }
    let row = SeasonRow { show_id: show.id, id: m.id, title, number, overview };
    proof {
        lemma_fresh_id_unused(pre, m.id);
        lemma_create_media_wf(pre, MediaKind::Season);
        assert(c2.media_by_id(m.id) == Some(m));
        assert(c2.season_row(m.id) is None);
        lemma_season_row_push(c2, row);
    }
    catalog.seasons.push(row);
    let ghost c3 = catalog@;
    proof {
        lemma_extends_refl(pre);
        assert(c3 =~= CatalogM { seasons: c2.seasons.push(row), ..c2 });
        assert(c3.media.subrange(0, pre.media.len() as int) =~= pre.media);
        assert(c3.seasons.subrange(0, pre.seasons.len() as int) =~= pre.seasons);
        assert(c3.external_ids.subrange(0, pre.external_ids.len() as int) =~= pre.external_ids);
        assert(extends_catalog(pre, c3));
    }
    match episodes {
        None => Ok(m),
        Some(eps) => {
            let ghost eps_all = eps@;
            let mut remaining = eps;
            while remaining.len() > 0
                invariant
                    catalog@.wf(),
                    extends_catalog(pre, catalog@),
                    insert_episodes_m(c3, *show, m, eps_all) == insert_episodes_m(
                        catalog@,
                        *show,
                        m,
                        remaining@,
                    ),
                decreases remaining.len(),
            {
                let ghost cur = catalog@;
                let ghost rem0 = remaining@;
                let ne = remaining.remove(0);
                proof {
                    assert(rem0.remove(0) =~= rem0.drop_first());
                    assert(rem0[0] == ne);
                }
                match insert_episode(catalog, show, &m, ne) {
                    Ok(_) => {
                        proof {
                            assert(insert_episodes_m(cur, *show, m, rem0) == insert_episodes_m(
                                catalog@,
                                *show,
                                m,
                                rem0.drop_first(),
                            ));
                            lemma_insert_episode_m_extends(cur, *show, m, ne);
                            lemma_extends_trans(pre, cur, catalog@);
                        }
                    },
                    Err(e) => {
                        proof {
                            assert(insert_episodes_m(cur, *show, m, rem0) == Err::<
                                CatalogM,
                                InsertEpisodeError,
                            >(e));
                        }
                        abort_to_mark(catalog, &mark, Ghost(pre));
                        return Err(InsertSeasonError::InsertEpisode(e));
                    },
                }
            }
            proof {
                assert(insert_episodes_m(catalog@, *show, m, remaining@) == Ok::<
                    _,
                    InsertEpisodeError,
                >(catalog@));
            }
            Ok(m)
        },
    }
}

/// Inserts a show as one atomic unit, cascading into nested seasons and
/// their episodes inside the same unit. On any failure — including a
/// failure on any nested season or episode — the whole unit rolls back.
#[verifier::loop_isolation(false)]
pub fn insert_show(catalog: &mut Catalog, new_show: NewShow) -> (r: Result<Media, InsertShowError>)
    requires
        old(catalog)@.wf(),
    ensures
        final(catalog)@.wf(),
        match r {
            Ok(m) => insert_show_m(old(catalog)@, new_show) == Ok::<_, InsertShowError>(
                (final(catalog)@, m),
            ),
            Err(e) => final(catalog)@ == old(catalog)@ && insert_show_m(old(catalog)@, new_show)
                == Err::<(CatalogM, Media), _>(e),
        },
{
    let ghost pre = catalog@;
    let mark = take_mark(catalog);
    let NewShow {
        title,
        release_year,
        overview,
        tagline,
        episode_runtime,
        external_ids,
        seasons,
    } = new_show;
    let m = match insert_media(catalog, MediaKind::Show) {
        Ok(m) => m,
        Err(e) => {
            return Err(InsertShowError::InsertMedia(e));
        },
    };
    match external_ids {
        Some(ids) => {
            match insert_media_external_id(catalog, &m, ids) {
                Ok(_) => {},
                Err(e) => {
                    proof {
                        lemma_extends_refl(pre);
                        assert(catalog@.media.subrange(0, pre.media.len() as int) =~= pre.media);
                        assert(catalog@.external_ids.subrange(0, pre.external_ids.len() as int)
                            =~= pre.external_ids);
                        assert(extends_catalog(pre, catalog@));
                    }
                    abort_to_mark(catalog, &mark, Ghost(pre));
                    return Err(InsertShowError::InsertMediaExternalId(e));
                },
            }
        },
        None => {},
    }
    let ghost c2 = catalog@;
    let row = ShowRow { id: m.id, title, release_year, overview, tagline, episode_runtime };
    proof {
        lemma_fresh_id_unused(pre, m.id);
        lemma_create_media_wf(pre, MediaKind::Show);
        assert(c2.media_by_id(m.id) == Some(m));
        assert(c2.show_row(m.id) is None);
        lemma_show_row_push(c2, row);
    }
    catalog.shows.push(row);
    let ghost c3 = catalog@;
    proof {
        lemma_extends_refl(pre);
        assert(c3 =~= CatalogM { shows: c2.shows.push(row), ..c2 });
        assert(c3.media.subrange(0, pre.media.len() as int) =~= pre.media);
        assert(c3.shows.subrange(0, pre.shows.len() as int) =~= pre.shows);
        assert(c3.external_ids.subrange(0, pre.external_ids.len() as int) =~= pre.external_ids);
        assert(extends_catalog(pre, c3));
    }
    match seasons {
        None => Ok(m),
        Some(list) => {
            let ghost list_all = list@;
            let mut remaining = list;
            while remaining.len() > 0
                invariant
                    catalog@.wf(),
                    extends_catalog(pre, catalog@),
                    insert_seasons_m(c3, m, list_all) == insert_seasons_m(
                        catalog@,
                        m,
                        remaining@,
                    ),
                decreases remaining.len(),
            {
                let ghost cur = catalog@;
                let ghost rem0 = remaining@;
                let ns = remaining.remove(0);
                proof {
                    assert(rem0.remove(0) =~= rem0.drop_first());
                    assert(rem0[0] == ns);
                }
                match insert_season(catalog, &m, ns) {
                    Ok(_) => {
                        proof {
                            assert(insert_seasons_m(cur, m, rem0) == insert_seasons_m(
                                catalog@,
                                m,
                                rem0.drop_first(),
                            ));
                            lemma_insert_season_m_extends(cur, m, ns);
                            lemma_extends_trans(pre, cur, catalog@);
                        }
                    },
                    Err(e) => {
                        proof {
                            assert(insert_seasons_m(cur, m, rem0) == Err::<
                                CatalogM,
                                InsertSeasonError,
                            >(e));
                        }
                        abort_to_mark(catalog, &mark, Ghost(pre));
                        return Err(InsertShowError::InsertSeason(e));
                    },
                }
            }
            proof {
                assert(insert_seasons_m(catalog@, m, remaining@) == Ok::<_, InsertSeasonError>(
                    catalog@,
                ));
            }
            Ok(m)
        },
    }
}

} // verus!
