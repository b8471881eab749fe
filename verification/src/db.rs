//! The identity store, the external-identity index, and the watch/list
//! ledger, modelled as one in-memory catalog of append-only tables.
//!
//! `Catalog` is the executable store; `CatalogM` is its mathematical
//! model (one sequence per table). Every operation's contract is stated
//! against the model, and every lookup is pinned to a first-match scan.

use vstd::prelude::*;

use crate::scan::find_first;
use crate::scan::lemma_find_first_characterizes;
use crate::scan::lemma_find_first_congruent;
use crate::scan::lemma_find_first_push;
use crate::scan::lemma_find_first_skip_step;
use crate::scan::lemma_find_first_skip_zero;

verus! {

// ---------------------------------------------------------------------
// Entities and rows
// ---------------------------------------------------------------------

/// The four kinds of canonical media entity. A row's kind is fixed at
/// creation and never changes.
#[derive(Clone, Copy, Debug, PartialEq, Eq, Structural)]
pub enum MediaKind {
    Movie,
    Show,
    Season,
    Episode,
}

/// A canonical media entity: a single id space shared by all kinds.
#[derive(Clone, Copy, Debug, PartialEq, Eq, Structural)]
pub struct Media {
    pub id: i32,
    pub kind: MediaKind,
}

/// The nullable external-namespace identifiers a media entity may carry.
/// The tracker id is globally unique; the metadata-service id is unique
/// only within a kind.
#[derive(Debug)]
pub struct MediaExternalId {
    pub trakt_id: Option<i32>,
    pub trakt_slug: Option<String>,
    pub tvdb_id: Option<i32>,
    pub imdb_id: Option<String>,
    pub tmdb_id: Option<i32>,
}

impl MediaExternalId {
    /// A field-for-field copy, proved equal to the original.
    pub fn duplicate(&self) -> (r: MediaExternalId)
        ensures
            r == *self,
    {
        MediaExternalId {
            trakt_id: self.trakt_id,
            trakt_slug: self.trakt_slug.clone(),
            tvdb_id: self.tvdb_id,
            imdb_id: self.imdb_id.clone(),
            tmdb_id: self.tmdb_id,
        }
    }
}

/// Kind-detail row for a movie, keyed by the media id.
#[derive(Debug)]
pub struct MovieRow {
    pub id: i32,
    pub title: String,
    pub release_year: i32,
    pub overview: Option<String>,
    pub tagline: Option<String>,
    pub runtime: Option<i32>,
}

impl MovieRow {
    /// A field-for-field copy, proved equal to the original.
    pub fn duplicate(&self) -> (r: MovieRow)
        ensures
            r == *self,
    {
        MovieRow {
            id: self.id,
            title: self.title.clone(),
            release_year: self.release_year,
            overview: self.overview.clone(),
            tagline: self.tagline.clone(),
            runtime: self.runtime,
        }
    }
}

/// Kind-detail row for a show, keyed by the media id.
#[derive(Debug)]
pub struct ShowRow {
    pub id: i32,
    pub title: String,
    pub release_year: i32,
    pub overview: Option<String>,
    pub tagline: Option<String>,
    pub episode_runtime: Option<i32>,
}

impl ShowRow {
    /// A field-for-field copy, proved equal to the original.
    pub fn duplicate(&self) -> (r: ShowRow)
        ensures
            r == *self,
    {
        ShowRow {
            id: self.id,
            title: self.title.clone(),
            release_year: self.release_year,
            overview: self.overview.clone(),
            tagline: self.tagline.clone(),
            episode_runtime: self.episode_runtime,
        }
    }
}

/// Kind-detail row for a season; `number` is unique within its show.
#[derive(Debug)]
pub struct SeasonRow {
    pub show_id: i32,
    pub id: i32,
    pub title: String,
    pub number: i32,
    pub overview: Option<String>,
}

impl SeasonRow {
    /// A field-for-field copy, proved equal to the original.
    pub fn duplicate(&self) -> (r: SeasonRow)
        ensures
            r == *self,
    {
        SeasonRow {
            show_id: self.show_id,
            id: self.id,
            title: self.title.clone(),
            number: self.number,
            overview: self.overview.clone(),
        }
    }
}

/// Kind-detail row for an episode; `number` is unique within its season.
#[derive(Debug)]
pub struct EpisodeRow {
    pub show_id: i32,
    pub season_id: i32,
    pub id: i32,
    pub title: String,
    pub number: i32,
    pub overview: Option<String>,
    pub runtime: Option<i32>,
}

impl EpisodeRow {
    /// A field-for-field copy, proved equal to the original.
    pub fn duplicate(&self) -> (r: EpisodeRow)
        ensures
            r == *self,
    {
        EpisodeRow {
            show_id: self.show_id,
            season_id: self.season_id,
            id: self.id,
            title: self.title.clone(),
            number: self.number,
            overview: self.overview.clone(),
            runtime: self.runtime,
        }
    }
}

/// The external-identity mapping of one media entity. At most one row
/// per media id.
#[derive(Debug)]
pub struct ExternalIdRow {
    pub media_id: i32,
    pub ids: MediaExternalId,
}

/// An append-only watch fact: no uniqueness, rewatches accumulate.
#[derive(Clone, Copy, Debug, PartialEq, Eq, Structural)]
pub struct WatchHistoryRow {
    pub media_id: i32,
    pub media_kind: MediaKind,
    pub watched_at: i64,
}

/// An append-only list-membership fact.
#[derive(Clone, Copy, Debug, PartialEq, Eq, Structural)]
pub struct ListItemRow {
    pub list_id: i32,
    pub media_id: i32,
    pub listed_at: Option<i64>,
}

// ---------------------------------------------------------------------
// The catalog and its model
// ---------------------------------------------------------------------

/// The executable store: one growable table per relation, plus the next
/// id to assign.
pub struct Catalog {
    pub media: Vec<Media>,
    pub movies: Vec<MovieRow>,
    pub shows: Vec<ShowRow>,
    pub seasons: Vec<SeasonRow>,
    pub episodes: Vec<EpisodeRow>,
    pub external_ids: Vec<ExternalIdRow>,
    pub watch_history: Vec<WatchHistoryRow>,
    pub list_items: Vec<ListItemRow>,
    pub next_id: i32,
}

/// The mathematical model of a catalog: the tables as sequences.
#[verifier::ext_equal]
pub struct CatalogM {
    pub media: Seq<Media>,
    pub movies: Seq<MovieRow>,
    pub shows: Seq<ShowRow>,
    pub seasons: Seq<SeasonRow>,
    pub episodes: Seq<EpisodeRow>,
    pub external_ids: Seq<ExternalIdRow>,
    pub watch_history: Seq<WatchHistoryRow>,
    pub list_items: Seq<ListItemRow>,
    pub next_id: i32,
}

impl View for Catalog {
    type V = CatalogM;

    open spec fn view(&self) -> CatalogM {
        CatalogM {
            media: self.media@,
            movies: self.movies@,
            shows: self.shows@,
            seasons: self.seasons@,
            episodes: self.episodes@,
            external_ids: self.external_ids@,
            watch_history: self.watch_history@,
            list_items: self.list_items@,
            next_id: self.next_id,
        }
    }
}

/// The model of a freshly created store: all tables empty, ids start at 1.
pub open spec fn empty_catalog() -> CatalogM {
    CatalogM {
        media: Seq::empty(),
        movies: Seq::empty(),
        shows: Seq::empty(),
        seasons: Seq::empty(),
        episodes: Seq::empty(),
        external_ids: Seq::empty(),
        watch_history: Seq::empty(),
        list_items: Seq::empty(),
        next_id: 1,
    }
}

// ---------------------------------------------------------------------
// Row predicates (named, so that executable scans and the model share
// one closure value)
// ---------------------------------------------------------------------

pub open spec fn media_with_id(id: i32) -> spec_fn(Media) -> bool {
    |m: Media| m.id == id
}

pub open spec fn movie_with_id(id: i32) -> spec_fn(MovieRow) -> bool {
    |r: MovieRow| r.id == id
}

pub open spec fn show_with_id(id: i32) -> spec_fn(ShowRow) -> bool {
    |r: ShowRow| r.id == id
}

pub open spec fn season_with_id(id: i32) -> spec_fn(SeasonRow) -> bool {
    |r: SeasonRow| r.id == id
}

pub open spec fn episode_with_id(id: i32) -> spec_fn(EpisodeRow) -> bool {
    |r: EpisodeRow| r.id == id
}

pub open spec fn season_with_show_and_number(show_id: i32, number: i32) -> spec_fn(
    SeasonRow,
) -> bool {
    |r: SeasonRow| r.show_id == show_id && r.number == number
}

pub open spec fn episode_with_season_and_number(season_id: i32, number: i32) -> spec_fn(
    EpisodeRow,
) -> bool {
    |r: EpisodeRow| r.season_id == season_id && r.number == number
}

pub open spec fn ext_with_media(media_id: i32) -> spec_fn(ExternalIdRow) -> bool {
    |r: ExternalIdRow| r.media_id == media_id
}

pub open spec fn ext_with_trakt(trakt_id: i32) -> spec_fn(ExternalIdRow) -> bool {
    |r: ExternalIdRow| r.ids.trakt_id == Some(trakt_id)
}

pub open spec fn ext_with_tmdb(c: CatalogM, tmdb_id: i32, kind: MediaKind) -> spec_fn(
    ExternalIdRow,
) -> bool {
    |r: ExternalIdRow| r.ids.tmdb_id == Some(tmdb_id) && c.media_kind_of(r.media_id) == Some(kind)
}

// ---------------------------------------------------------------------
// Model-level lookups
// ---------------------------------------------------------------------

impl CatalogM {
    /// The canonical entity with the given id, if any.
    pub open spec fn media_by_id(self, id: i32) -> Option<Media> {
        find_first(self.media, media_with_id(id))
    }

    /// The kind stored for an id, if the id exists.
    pub open spec fn media_kind_of(self, id: i32) -> Option<MediaKind> {
        match self.media_by_id(id) {
            Some(m) => Some(m.kind),
            None => None,
        }
    }

    /// Lookup by id with an optional kind filter: a kind mismatch is
    /// "absent", never an error.
    pub open spec fn media_by_id_kind(self, id: i32, filter: Option<MediaKind>) -> Option<Media> {
        match self.media_by_id(id) {
            Some(m) => if filter is None || filter == Some(m.kind) {
                Some(m)
            } else {
                None
            },
            None => None,
        }
    }

    /// The mapping row of one media entity, if any.
    pub open spec fn ext_row_by_media(self, media_id: i32) -> Option<ExternalIdRow> {
        find_first(self.external_ids, ext_with_media(media_id))
    }

    /// The mapping row carrying a tracker id: one flat, kind-agnostic
    /// namespace.
    pub open spec fn ext_row_by_trakt(self, trakt_id: i32) -> Option<ExternalIdRow> {
        find_first(self.external_ids, ext_with_trakt(trakt_id))
    }

    /// The canonical entity behind a tracker id.
    pub open spec fn media_by_trakt(self, trakt_id: i32) -> Option<Media> {
        match self.ext_row_by_trakt(trakt_id) {
            Some(r) => self.media_by_id(r.media_id),
            None => None,
        }
    }

    /// The mapping row carrying a metadata-service id, scoped by kind:
    /// the same numeric id may identify both a movie and a show.
    pub open spec fn ext_row_by_tmdb(self, tmdb_id: i32, kind: MediaKind) -> Option<ExternalIdRow> {
        find_first(self.external_ids, ext_with_tmdb(self, tmdb_id, kind))
    }

    /// The canonical entity behind a metadata-service id of one kind.
    pub open spec fn media_by_tmdb(self, tmdb_id: i32, kind: MediaKind) -> Option<Media> {
        match self.ext_row_by_tmdb(tmdb_id, kind) {
            Some(r) => self.media_by_id(r.media_id),
            None => None,
        }
    }

    pub open spec fn movie_row(self, id: i32) -> Option<MovieRow> {
        find_first(self.movies, movie_with_id(id))
    }

    pub open spec fn show_row(self, id: i32) -> Option<ShowRow> {
        find_first(self.shows, show_with_id(id))
    }

    pub open spec fn season_row(self, id: i32) -> Option<SeasonRow> {
        find_first(self.seasons, season_with_id(id))
    }

    pub open spec fn episode_row(self, id: i32) -> Option<EpisodeRow> {
        find_first(self.episodes, episode_with_id(id))
    }

    /// The season of a show with a given number: the lookup the
    /// reconciler uses when an export carries no season-level id.
    pub open spec fn season_by_show_and_number(self, show_id: i32, number: i32) -> Option<
        SeasonRow,
    > {
        find_first(self.seasons, season_with_show_and_number(show_id, number))
    }

    /// The episode of a season with a given number.
    pub open spec fn episode_by_season_and_number(self, season_id: i32, number: i32) -> Option<
        EpisodeRow,
    > {
        find_first(self.episodes, episode_with_season_and_number(season_id, number))
    }
}

// ---------------------------------------------------------------------
// Well-formedness
// ---------------------------------------------------------------------

impl CatalogM {
    /// Ids are assigned from 1 upward and never reused.
    pub open spec fn wf_media(self) -> bool {
        &&& 1 <= self.next_id
        &&& forall|i: int|
            0 <= i < self.media.len() ==> 1 <= (#[trigger] self.media[i]).id < self.next_id
        &&& forall|i: int, j: int|
            #![trigger self.media[i], self.media[j]]
            0 <= i < j < self.media.len() ==> self.media[i].id != self.media[j].id
    }

    /// Every movie row extends a canonical entity of kind Movie; at most
    /// one row per id.
    pub open spec fn wf_movies(self) -> bool {
        &&& forall|i: int|
            0 <= i < self.movies.len() ==> self.media_by_id((#[trigger] self.movies[i]).id)
                == Some(Media { id: self.movies[i].id, kind: MediaKind::Movie })
        &&& forall|i: int, j: int|
            #![trigger self.movies[i], self.movies[j]]
            0 <= i < j < self.movies.len() ==> self.movies[i].id != self.movies[j].id
    }

    /// Every show row extends a canonical entity of kind Show; at most
    /// one row per id.
    pub open spec fn wf_shows(self) -> bool {
        &&& forall|i: int|
            0 <= i < self.shows.len() ==> self.media_by_id((#[trigger] self.shows[i]).id)
                == Some(Media { id: self.shows[i].id, kind: MediaKind::Show })
        &&& forall|i: int, j: int|
            #![trigger self.shows[i], self.shows[j]]
            0 <= i < j < self.shows.len() ==> self.shows[i].id != self.shows[j].id
    }

    /// Season rows extend Season entities, belong to an existing show,
    /// and are unique per (show, number).
    pub open spec fn wf_seasons(self) -> bool {
        &&& forall|i: int|
            0 <= i < self.seasons.len() ==> self.media_by_id((#[trigger] self.seasons[i]).id)
                == Some(Media { id: self.seasons[i].id, kind: MediaKind::Season })
        &&& forall|i: int|
            0 <= i < self.seasons.len() ==> self.show_row(
                (#[trigger] self.seasons[i]).show_id,
            ) is Some
        &&& forall|i: int, j: int|
            #![trigger self.seasons[i], self.seasons[j]]
            0 <= i < j < self.seasons.len() ==> self.seasons[i].id != self.seasons[j].id
        &&& forall|i: int, j: int|
            #![trigger self.seasons[i], self.seasons[j]]
            0 <= i < j < self.seasons.len() ==> !(self.seasons[i].show_id == self.seasons[j].show_id
                && self.seasons[i].number == self.seasons[j].number)
    }

    /// Episode rows extend Episode entities, sit in an existing season
    /// of the same show, and are unique per (season, number).
    pub open spec fn wf_episodes(self) -> bool {
        &&& forall|i: int|
            0 <= i < self.episodes.len() ==> self.media_by_id((#[trigger] self.episodes[i]).id)
                == Some(Media { id: self.episodes[i].id, kind: MediaKind::Episode })
        &&& forall|i: int|
            0 <= i < self.episodes.len() ==> match self.season_row(
                (#[trigger] self.episodes[i]).season_id,
            ) {
                Some(se) => se.show_id == self.episodes[i].show_id,
                None => false,
            }
        &&& forall|i: int|
            0 <= i < self.episodes.len() ==> self.show_row(
                (#[trigger] self.episodes[i]).show_id,
            ) is Some
        &&& forall|i: int, j: int|
            #![trigger self.episodes[i], self.episodes[j]]
            0 <= i < j < self.episodes.len() ==> self.episodes[i].id != self.episodes[j].id
        &&& forall|i: int, j: int|
            #![trigger self.episodes[i], self.episodes[j]]
            0 <= i < j < self.episodes.len() ==> !(self.episodes[i].season_id
                == self.episodes[j].season_id && self.episodes[i].number
                == self.episodes[j].number)
    }

    /// Mapping rows reference existing media, at most one per media id;
    /// tracker ids are globally unique; metadata-service ids are unique
    /// within a kind.
    pub open spec fn wf_external(self) -> bool {
        &&& forall|i: int|
            0 <= i < self.external_ids.len() ==> self.media_by_id(
                (#[trigger] self.external_ids[i]).media_id,
            ) is Some
        &&& forall|i: int, j: int|
            #![trigger self.external_ids[i], self.external_ids[j]]
            0 <= i < j < self.external_ids.len() ==> self.external_ids[i].media_id
                != self.external_ids[j].media_id
        &&& forall|i: int, j: int|
            #![trigger self.external_ids[i], self.external_ids[j]]
            0 <= i < j < self.external_ids.len() ==> !(self.external_ids[i].ids.trakt_id is Some
                && self.external_ids[i].ids.trakt_id == self.external_ids[j].ids.trakt_id)
        &&& forall|i: int, j: int|
            #![trigger self.external_ids[i], self.external_ids[j]]
            0 <= i < j < self.external_ids.len() ==> ((self.external_ids[i].ids.tmdb_id is Some
                && self.external_ids[i].ids.tmdb_id == self.external_ids[j].ids.tmdb_id)
                ==> self.media_kind_of(self.external_ids[i].media_id) != self.media_kind_of(
                self.external_ids[j].media_id,
            ))
    }

    /// Ledger rows reference existing media; a watch fact records the
    /// kind the entity had (and keeps) at the time of the watch.
    pub open spec fn wf_ledger(self) -> bool {
        &&& forall|i: int|
            0 <= i < self.watch_history.len() ==> self.media_by_id(
                (#[trigger] self.watch_history[i]).media_id,
            ) == Some(
                Media {
                    id: self.watch_history[i].media_id,
                    kind: self.watch_history[i].media_kind,
                },
            )
        &&& forall|i: int|
            0 <= i < self.list_items.len() ==> self.media_by_id(
                (#[trigger] self.list_items[i]).media_id,
            ) is Some
    }

    /// The catalog invariant: every constructor establishes it and every
    /// operation preserves it.
    pub open spec fn wf(self) -> bool {
        &&& self.wf_media()
        &&& self.wf_movies()
        &&& self.wf_shows()
        &&& self.wf_seasons()
        &&& self.wf_episodes()
        &&& self.wf_external()
        &&& self.wf_ledger()
    }
}

// ---------------------------------------------------------------------
// Facts about lookups
// ---------------------------------------------------------------------

/// A successful id lookup returns an entity bearing that id, and the id
/// is inside the assigned range.
pub proof fn lemma_media_by_id_props(c: CatalogM, id: i32)
    requires
        c.wf_media(),
    ensures
        c.media_by_id(id) matches Some(m) ==> m.id == id && 1 <= id < c.next_id,
{
    lemma_find_first_characterizes(c.media, media_with_id(id));
    match c.media_by_id(id) {
        Some(m) => {
            let i = choose|i: int| 0 <= i < c.media.len() && #[trigger] c.media[i] == m;
            assert(1 <= c.media[i].id < c.next_id);
        },
        None => {},
    }
}

/// An id at or above the high-water mark appears in no table: nothing
/// has ever been keyed by it.
pub proof fn lemma_fresh_id_unused(c: CatalogM, id: i32)
    requires
        c.wf(),
        c.next_id <= id,
    ensures
        c.media_by_id(id) is None,
        c.movie_row(id) is None,
        c.show_row(id) is None,
        c.season_row(id) is None,
        c.episode_row(id) is None,
        c.ext_row_by_media(id) is None,
{
    lemma_find_first_characterizes(c.media, media_with_id(id));
    assert forall|i: int| 0 <= i < c.media.len() implies !(media_with_id(id)(
        #[trigger] c.media[i],
    )) by {}

    lemma_find_first_characterizes(c.movies, movie_with_id(id));
    assert forall|i: int| 0 <= i < c.movies.len() implies !(movie_with_id(id)(
        #[trigger] c.movies[i],
    )) by {
        lemma_media_by_id_props(c, c.movies[i].id);
    }

    lemma_find_first_characterizes(c.shows, show_with_id(id));
    assert forall|i: int| 0 <= i < c.shows.len() implies !(show_with_id(id)(
        #[trigger] c.shows[i],
    )) by {
        lemma_media_by_id_props(c, c.shows[i].id);
    }

    lemma_find_first_characterizes(c.seasons, season_with_id(id));
    assert forall|i: int| 0 <= i < c.seasons.len() implies !(season_with_id(id)(
        #[trigger] c.seasons[i],
    )) by {
        lemma_media_by_id_props(c, c.seasons[i].id);
    }

    lemma_find_first_characterizes(c.episodes, episode_with_id(id));
    assert forall|i: int| 0 <= i < c.episodes.len() implies !(episode_with_id(id)(
        #[trigger] c.episodes[i],
    )) by {
        lemma_media_by_id_props(c, c.episodes[i].id);
    }

    lemma_find_first_characterizes(c.external_ids, ext_with_media(id));
    assert forall|i: int| 0 <= i < c.external_ids.len() implies !(ext_with_media(id)(
        #[trigger] c.external_ids[i],
    )) by {
        lemma_media_by_id_props(c, c.external_ids[i].media_id);
    }
}

/// Under the invariant a tracker id that resolves to no entity is
/// carried by no mapping row at all.
pub proof fn lemma_media_by_trakt_none(c: CatalogM, trakt_id: i32)
    requires
        c.wf(),
        c.media_by_trakt(trakt_id) is None,
    ensures
        c.ext_row_by_trakt(trakt_id) is None,
{
    lemma_find_first_characterizes(c.external_ids, ext_with_trakt(trakt_id));
    match c.ext_row_by_trakt(trakt_id) {
        Some(row) => {
            let i = choose|i: int|
                0 <= i < c.external_ids.len() && #[trigger] c.external_ids[i] == row;
            assert(c.media_by_id(c.external_ids[i].media_id) is Some);
        },
        None => {},
    }
}

/// An entity a tracker id resolves to is a row of the identity store,
/// under its own id.
pub proof fn lemma_media_by_trakt_found(c: CatalogM, trakt_id: i32)
    requires
        c.wf(),
        c.media_by_trakt(trakt_id) is Some,
    ensures
        ({
            let m = c.media_by_trakt(trakt_id)->Some_0;
            c.media_by_id(m.id) == Some(m)
        }),
{
    match c.ext_row_by_trakt(trakt_id) {
        Some(row) => {
            lemma_media_by_id_props(c, row.media_id);
        },
        None => {},
    }
}

/// A show id that a detail row carries lies inside the assigned range.
pub proof fn lemma_show_row_id_bound(c: CatalogM, show_id: i32)
    requires
        c.wf(),
        c.show_row(show_id) is Some,
    ensures
        1 <= show_id < c.next_id,
{
    lemma_find_first_characterizes(c.shows, show_with_id(show_id));
    match c.show_row(show_id) {
        Some(row) => {
            let i = choose|i: int| 0 <= i < c.shows.len() && #[trigger] c.shows[i] == row;
            assert(c.media_by_id(c.shows[i].id) == Some(
                Media { id: c.shows[i].id, kind: MediaKind::Show },
            ));
            lemma_media_by_id_props(c, show_id);
        },
        None => {},
    }
}

/// Two catalogs with the same mapping table and the same kind for every
/// mapped media id agree on every kind-scoped metadata-service lookup.
pub proof fn lemma_tmdb_lookup_congruent(c1: CatalogM, c2: CatalogM)
    requires
        c1.external_ids == c2.external_ids,
        forall|i: int|
            0 <= i < c1.external_ids.len() ==> c1.media_kind_of(
                (#[trigger] c1.external_ids[i]).media_id,
            ) == c2.media_kind_of(c1.external_ids[i].media_id),
    ensures
        forall|t: i32, k: MediaKind| #[trigger] c1.ext_row_by_tmdb(t, k) == c2.ext_row_by_tmdb(
            t,
            k,
        ),
{
    assert forall|t: i32, k: MediaKind| #[trigger] c1.ext_row_by_tmdb(t, k) == c2.ext_row_by_tmdb(
        t,
        k,
    ) by {
        let p1 = ext_with_tmdb(c1, t, k);
        let p2 = ext_with_tmdb(c2, t, k);
        assert forall|i: int| 0 <= i < c1.external_ids.len() implies p1(
            #[trigger] c1.external_ids[i],
        ) == p2(c1.external_ids[i]) by {}
        lemma_find_first_congruent(c1.external_ids, p1, p2);
    }
}

// ---------------------------------------------------------------------
// Errors
// ---------------------------------------------------------------------

/// Creating a canonical entity failed: the id space is exhausted. In a
/// durable store this is where connectivity and constraint failures of
/// the media insert would surface.
#[derive(Clone, Copy, Debug, PartialEq, Eq, Structural)]
pub struct InsertMediaError;

/// Recording an external-identity mapping failed.
#[derive(Clone, Copy, Debug, PartialEq, Eq, Structural)]
pub enum InsertMediaExternalIdError {
    /// The media the mapping points at is not a row of the catalog.
    MediaNotFound,
    /// The media already has its (at most one) mapping row.
    AlreadyMapped,
    /// The tracker id is already taken, by any kind: that namespace is
    /// globally unique.
    TraktIdConflict,
    /// The metadata-service id is already taken within this kind.
    TmdbIdConflict,
}

// ---------------------------------------------------------------------
// The store
// ---------------------------------------------------------------------

impl Catalog {
    /// An empty catalog; ids will be assigned from 1 upward.
    pub fn new() -> (c: Catalog)
        ensures
            c@ == empty_catalog(),
            c@.wf(),
    {
        let c = Catalog {
            media: Vec::new(),
            movies: Vec::new(),
            shows: Vec::new(),
            seasons: Vec::new(),
            episodes: Vec::new(),
            external_ids: Vec::new(),
            watch_history: Vec::new(),
            list_items: Vec::new(),
            next_id: 1,
        };
        proof {
            assert(c@ =~= empty_catalog());
        }
        c
    }
}

/// Returns the entity with this id, or nothing; a kind filter that does
/// not match the stored kind means "absent", not an error.
pub fn get_media_by_id(catalog: &Catalog, id: i32, media_kind: Option<MediaKind>) -> (r: Option<
    Media,
>)
    ensures
        r == catalog@.media_by_id_kind(id, media_kind),
{
    proof {
        lemma_find_first_skip_zero(catalog@.media, media_with_id(id));
    }
    let n = catalog.media.len();
    let mut i: usize = 0;
    while i < n
        invariant
            i <= n,
            n == catalog.media.len(),
            find_first(catalog@.media, media_with_id(id)) == find_first(
                catalog@.media.skip(i as int),
                media_with_id(id),
            ),
        decreases n - i,
    {
        let m = catalog.media[i];
        proof {
            lemma_find_first_skip_step(catalog@.media, media_with_id(id), i as int);
        }
        if m.id == id {
            assert(catalog@.media_by_id(id) == Some(m));
            return match media_kind {
                Some(k) => if m.kind == k {
                    Some(m)
                } else {
                    None
                },
                None => Some(m),
            };
        }
        i += 1;
    }
    proof {
        assert(catalog@.media.skip(n as int) =~= Seq::<Media>::empty());
    }
    None
}

/// The media id carrying this tracker id in the mapping table, if any.
fn find_mapped_media_by_trakt(catalog: &Catalog, trakt_id: i32) -> (r: Option<i32>)
    ensures
        r == match catalog@.ext_row_by_trakt(trakt_id) {
            Some(row) => Some(row.media_id),
            None => None::<i32>,
        },
{
    proof {
        lemma_find_first_skip_zero(catalog@.external_ids, ext_with_trakt(trakt_id));
    }
    let n = catalog.external_ids.len();
    let mut i: usize = 0;
    while i < n
        invariant
            i <= n,
            n == catalog.external_ids.len(),
            find_first(catalog@.external_ids, ext_with_trakt(trakt_id)) == find_first(
                catalog@.external_ids.skip(i as int),
                ext_with_trakt(trakt_id),
            ),
        decreases n - i,
    {
        proof {
            lemma_find_first_skip_step(catalog@.external_ids, ext_with_trakt(trakt_id), i as int);
        }
        let hit = match catalog.external_ids[i].ids.trakt_id {
            Some(t) => t == trakt_id,
            None => false,
        };
        if hit {
            return Some(catalog.external_ids[i].media_id);
        }
        i += 1;
    }
    proof {
        assert(catalog@.external_ids.skip(n as int) =~= Seq::<ExternalIdRow>::empty());
    }
    None
}

/// Whether this media id already has a mapping row.
fn has_mapping_for_media(catalog: &Catalog, media_id: i32) -> (r: bool)
    ensures
        r == (catalog@.ext_row_by_media(media_id) is Some),
{
    proof {
        lemma_find_first_skip_zero(catalog@.external_ids, ext_with_media(media_id));
    }
    let n = catalog.external_ids.len();
    let mut i: usize = 0;
    while i < n
        invariant
            i <= n,
            n == catalog.external_ids.len(),
            find_first(catalog@.external_ids, ext_with_media(media_id)) == find_first(
                catalog@.external_ids.skip(i as int),
                ext_with_media(media_id),
            ),
        decreases n - i,
    {
        proof {
            lemma_find_first_skip_step(catalog@.external_ids, ext_with_media(media_id), i as int);
        }
        if catalog.external_ids[i].media_id == media_id {
            return true;
        }
        i += 1;
    }
    proof {
        assert(catalog@.external_ids.skip(n as int) =~= Seq::<ExternalIdRow>::empty());
    }
    false
}

/// The media id mapped under this metadata-service id within one kind,
/// if any.
fn find_mapped_media_by_tmdb(catalog: &Catalog, tmdb_id: i32, kind: MediaKind) -> (r: Option<i32>)
    ensures
        r == match catalog@.ext_row_by_tmdb(tmdb_id, kind) {
            Some(row) => Some(row.media_id),
            None => None::<i32>,
        },
{
    let ghost p = ext_with_tmdb(catalog@, tmdb_id, kind);
    proof {
        lemma_find_first_skip_zero(catalog@.external_ids, p);
    }
    let n = catalog.external_ids.len();
    let mut i: usize = 0;
    while i < n
        invariant
            i <= n,
            n == catalog.external_ids.len(),
            p == ext_with_tmdb(catalog@, tmdb_id, kind),
            find_first(catalog@.external_ids, p) == find_first(
                catalog@.external_ids.skip(i as int),
                p,
            ),
        decreases n - i,
    {
        proof {
            lemma_find_first_skip_step(catalog@.external_ids, p, i as int);
        }
        let id_hit = match catalog.external_ids[i].ids.tmdb_id {
            Some(t) => t == tmdb_id,
            None => false,
        };
        if id_hit {
            let owner = get_media_by_id(catalog, catalog.external_ids[i].media_id, None);
            let kind_hit = match owner {
                Some(m) => m.kind == kind,
                None => false,
            };
            if kind_hit {
                return Some(catalog.external_ids[i].media_id);
            }
        }
        i += 1;
    }
    proof {
        assert(catalog@.external_ids.skip(n as int) =~= Seq::<ExternalIdRow>::empty());
    }
    None
}

/// Flat, kind-agnostic lookup by external tracker id: the tracker
/// namespace is global across all kinds.
pub fn get_media_by_trakt_id(catalog: &Catalog, trakt_id: i32) -> (r: Option<Media>)
    ensures
        r == catalog@.media_by_trakt(trakt_id),
{
    match find_mapped_media_by_trakt(catalog, trakt_id) {
        Some(media_id) => get_media_by_id(catalog, media_id, None),
        None => None,
    }
}

/// Lookup by metadata-service id, which must be scoped by kind: the
/// same numeric id may identify both a movie and a show.
pub fn get_media_by_tmdb_id(
    catalog: &Catalog,
    tmdb_id: &crate::tmdb::TmdbId,
    media_kind: &MediaKind,
) -> (r: Option<Media>)
    ensures
        r == catalog@.media_by_tmdb(tmdb_id.0, *media_kind),
{
    match find_mapped_media_by_tmdb(catalog, tmdb_id.0, *media_kind) {
        Some(media_id) => get_media_by_id(catalog, media_id, None),
        None => None,
    }
}

/// The season of `show` with the given number, as a canonical entity.
pub fn get_season_by_show_and_number(catalog: &Catalog, show: &Media, number: i32) -> (r: Option<
    Media,
>)
    ensures
        r == match catalog@.season_by_show_and_number(show.id, number) {
            Some(row) => Some(Media { id: row.id, kind: MediaKind::Season }),
            None => None::<Media>,
        },
{
    let ghost p = season_with_show_and_number(show.id, number);
    proof {
        lemma_find_first_skip_zero(catalog@.seasons, p);
    }
    let n = catalog.seasons.len();
    let mut i: usize = 0;
    while i < n
        invariant
            i <= n,
            n == catalog.seasons.len(),
            p == season_with_show_and_number(show.id, number),
            find_first(catalog@.seasons, p) == find_first(catalog@.seasons.skip(i as int), p),
        decreases n - i,
    {
        proof {
            lemma_find_first_skip_step(catalog@.seasons, p, i as int);
        }
        if catalog.seasons[i].show_id == show.id && catalog.seasons[i].number == number {
            return Some(Media { id: catalog.seasons[i].id, kind: MediaKind::Season });
        }
        i += 1;
    }
    proof {
        assert(catalog@.seasons.skip(n as int) =~= Seq::<SeasonRow>::empty());
    }
    None
}

/// Whether a show detail row with this id exists.
pub fn has_show_row(catalog: &Catalog, id: i32) -> (r: bool)
    ensures
        r == (catalog@.show_row(id) is Some),
{
    proof {
        lemma_find_first_skip_zero(catalog@.shows, show_with_id(id));
    }
    let n = catalog.shows.len();
    let mut i: usize = 0;
    while i < n
        invariant
            i <= n,
            n == catalog.shows.len(),
            find_first(catalog@.shows, show_with_id(id)) == find_first(
                catalog@.shows.skip(i as int),
                show_with_id(id),
            ),
        decreases n - i,
    {
        proof {
            lemma_find_first_skip_step(catalog@.shows, show_with_id(id), i as int);
        }
        if catalog.shows[i].id == id {
            return true;
        }
        i += 1;
    }
    proof {
        assert(catalog@.shows.skip(n as int) =~= Seq::<ShowRow>::empty());
    }
    false
}

/// The owning show of a season detail row, if the row exists.
pub fn season_show_id(catalog: &Catalog, season_id: i32) -> (r: Option<i32>)
    ensures
        r == match catalog@.season_row(season_id) {
            Some(se) => Some(se.show_id),
            None => None::<i32>,
        },
{
    proof {
        lemma_find_first_skip_zero(catalog@.seasons, season_with_id(season_id));
    }
    let n = catalog.seasons.len();
    let mut i: usize = 0;
    while i < n
        invariant
            i <= n,
            n == catalog.seasons.len(),
            find_first(catalog@.seasons, season_with_id(season_id)) == find_first(
                catalog@.seasons.skip(i as int),
                season_with_id(season_id),
            ),
        decreases n - i,
    {
        proof {
            lemma_find_first_skip_step(catalog@.seasons, season_with_id(season_id), i as int);
        }
        if catalog.seasons[i].id == season_id {
            return Some(catalog.seasons[i].show_id);
        }
        i += 1;
    }
    proof {
        assert(catalog@.seasons.skip(n as int) =~= Seq::<SeasonRow>::empty());
    }
    None
}

/// Whether a season already holds an episode with this number.
pub fn has_episode_with_season_and_number(catalog: &Catalog, season_id: i32, number: i32) -> (r:
    bool)
    ensures
        r == (catalog@.episode_by_season_and_number(season_id, number) is Some),
{
    let ghost p = episode_with_season_and_number(season_id, number);
    proof {
        lemma_find_first_skip_zero(catalog@.episodes, p);
    }
    let n = catalog.episodes.len();
    let mut i: usize = 0;
    while i < n
        invariant
            i <= n,
            n == catalog.episodes.len(),
            p == episode_with_season_and_number(season_id, number),
            find_first(catalog@.episodes, p) == find_first(catalog@.episodes.skip(i as int), p),
        decreases n - i,
    {
        proof {
            lemma_find_first_skip_step(catalog@.episodes, p, i as int);
        }
        if catalog.episodes[i].season_id == season_id && catalog.episodes[i].number == number {
            return true;
        }
        i += 1;
    }
    proof {
        assert(catalog@.episodes.skip(n as int) =~= Seq::<EpisodeRow>::empty());
    }
    false
}

/// The movie detail row with this id, if any.
pub fn find_movie_row(catalog: &Catalog, id: i32) -> (r: Option<MovieRow>)
    ensures
        r == catalog@.movie_row(id),
{
    proof {
        lemma_find_first_skip_zero(catalog@.movies, movie_with_id(id));
    }
    let n = catalog.movies.len();
    let mut i: usize = 0;
    while i < n
        invariant
            i <= n,
            n == catalog.movies.len(),
            find_first(catalog@.movies, movie_with_id(id)) == find_first(
                catalog@.movies.skip(i as int),
                movie_with_id(id),
            ),
        decreases n - i,
    {
        proof {
            lemma_find_first_skip_step(catalog@.movies, movie_with_id(id), i as int);
        }
        if catalog.movies[i].id == id {
            return Some(catalog.movies[i].duplicate());
        }
        i += 1;
    }
    proof {
        assert(catalog@.movies.skip(n as int) =~= Seq::<MovieRow>::empty());
    }
    None
}

/// The show detail row with this id, if any.
pub fn find_show_row(catalog: &Catalog, id: i32) -> (r: Option<ShowRow>)
    ensures
        r == catalog@.show_row(id),
{
    proof {
        lemma_find_first_skip_zero(catalog@.shows, show_with_id(id));
    }
    let n = catalog.shows.len();
    let mut i: usize = 0;
    while i < n
        invariant
            i <= n,
            n == catalog.shows.len(),
            find_first(catalog@.shows, show_with_id(id)) == find_first(
                catalog@.shows.skip(i as int),
                show_with_id(id),
            ),
        decreases n - i,
    {
        proof {
            lemma_find_first_skip_step(catalog@.shows, show_with_id(id), i as int);
        }
        if catalog.shows[i].id == id {
            return Some(catalog.shows[i].duplicate());
        }
        i += 1;
    }
    proof {
        assert(catalog@.shows.skip(n as int) =~= Seq::<ShowRow>::empty());
    }
    None
}

/// The season detail row with this id, if any.
pub fn find_season_row(catalog: &Catalog, id: i32) -> (r: Option<SeasonRow>)
    ensures
        r == catalog@.season_row(id),
{
    proof {
        lemma_find_first_skip_zero(catalog@.seasons, season_with_id(id));
    }
    let n = catalog.seasons.len();
    let mut i: usize = 0;
    while i < n
        invariant
            i <= n,
            n == catalog.seasons.len(),
            find_first(catalog@.seasons, season_with_id(id)) == find_first(
                catalog@.seasons.skip(i as int),
                season_with_id(id),
            ),
        decreases n - i,
    {
        proof {
            lemma_find_first_skip_step(catalog@.seasons, season_with_id(id), i as int);
        }
        if catalog.seasons[i].id == id {
            return Some(catalog.seasons[i].duplicate());
        }
        i += 1;
    }
    proof {
        assert(catalog@.seasons.skip(n as int) =~= Seq::<SeasonRow>::empty());
    }
    None
}

/// The episode detail row with this id, if any.
pub fn find_episode_row(catalog: &Catalog, id: i32) -> (r: Option<EpisodeRow>)
    ensures
        r == catalog@.episode_row(id),
{
    proof {
        lemma_find_first_skip_zero(catalog@.episodes, episode_with_id(id));
    }
    let n = catalog.episodes.len();
    let mut i: usize = 0;
    while i < n
        invariant
            i <= n,
            n == catalog.episodes.len(),
            find_first(catalog@.episodes, episode_with_id(id)) == find_first(
                catalog@.episodes.skip(i as int),
                episode_with_id(id),
            ),
        decreases n - i,
    {
        proof {
            lemma_find_first_skip_step(catalog@.episodes, episode_with_id(id), i as int);
        }
        if catalog.episodes[i].id == id {
            return Some(catalog.episodes[i].duplicate());
        }
        i += 1;
    }
    proof {
        assert(catalog@.episodes.skip(n as int) =~= Seq::<EpisodeRow>::empty());
    }
    None
}

/// The season detail row of a show with this number, if any.
pub fn find_season_by_show_and_number(catalog: &Catalog, show_id: i32, number: i32) -> (r: Option<
    SeasonRow,
>)
    ensures
        r == catalog@.season_by_show_and_number(show_id, number),
{
    let ghost p = season_with_show_and_number(show_id, number);
    proof {
        lemma_find_first_skip_zero(catalog@.seasons, p);
    }
    let n = catalog.seasons.len();
    let mut i: usize = 0;
    while i < n
        invariant
            i <= n,
            n == catalog.seasons.len(),
            p == season_with_show_and_number(show_id, number),
            find_first(catalog@.seasons, p) == find_first(catalog@.seasons.skip(i as int), p),
        decreases n - i,
    {
        proof {
            lemma_find_first_skip_step(catalog@.seasons, p, i as int);
        }
        if catalog.seasons[i].show_id == show_id && catalog.seasons[i].number == number {
            return Some(catalog.seasons[i].duplicate());
        }
        i += 1;
    }
    proof {
        assert(catalog@.seasons.skip(n as int) =~= Seq::<SeasonRow>::empty());
    }
    None
}

/// The episode detail row of a season with this number, if any.
pub fn find_episode_by_season_and_number(catalog: &Catalog, season_id: i32, number: i32) -> (r:
    Option<EpisodeRow>)
    ensures
        r == catalog@.episode_by_season_and_number(season_id, number),
{
    let ghost p = episode_with_season_and_number(season_id, number);
    proof {
        lemma_find_first_skip_zero(catalog@.episodes, p);
    }
    let n = catalog.episodes.len();
    let mut i: usize = 0;
    while i < n
        invariant
            i <= n,
            n == catalog.episodes.len(),
            p == episode_with_season_and_number(season_id, number),
            find_first(catalog@.episodes, p) == find_first(catalog@.episodes.skip(i as int), p),
        decreases n - i,
    {
        proof {
            lemma_find_first_skip_step(catalog@.episodes, p, i as int);
        }
        if catalog.episodes[i].season_id == season_id && catalog.episodes[i].number == number {
            return Some(catalog.episodes[i].duplicate());
        }
        i += 1;
    }
    proof {
        assert(catalog@.episodes.skip(n as int) =~= Seq::<EpisodeRow>::empty());
    }
    None
}

// ---------------------------------------------------------------------
// Creating entities
// ---------------------------------------------------------------------

/// Model transition of `insert_media`: assign the next id, tag it with
/// the kind, append the row.
pub open spec fn create_media_m(c: CatalogM, kind: MediaKind) -> Result<
    (CatalogM, Media),
    InsertMediaError,
> {
    if c.next_id == i32::MAX {
        Err(InsertMediaError)
    } else {
        let m = Media { id: c.next_id, kind };
        Ok((CatalogM { media: c.media.push(m), next_id: (c.next_id + 1) as i32, ..c }, m))
    }
}

/// Appending a fresh entity preserves the invariant, makes the new id
/// resolvable, and disturbs no other lookup.
pub proof fn lemma_create_media_wf(pre: CatalogM, kind: MediaKind)
    requires
        pre.wf(),
        pre.next_id < i32::MAX,
    ensures
        ({
            let m = Media { id: pre.next_id, kind };
            let post = CatalogM {
                media: pre.media.push(m),
                next_id: (pre.next_id + 1) as i32,
                ..pre
            };
            &&& post.wf()
            &&& post.media_by_id(m.id) == Some(m)
            &&& forall|id: i32|
                id != m.id ==> #[trigger] post.media_by_id(id) == pre.media_by_id(id)
            &&& forall|t: i32, k: MediaKind| #[trigger] post.ext_row_by_tmdb(t, k)
                == pre.ext_row_by_tmdb(t, k)
        }),
{
    let m = Media { id: pre.next_id, kind };
    let post = CatalogM { media: pre.media.push(m), next_id: (pre.next_id + 1) as i32, ..pre };

    assert forall|id: i32| #[trigger] post.media_by_id(id) == (if id == m.id {
        Some(m)
    } else {
        pre.media_by_id(id)
    }) by {
        lemma_find_first_push(pre.media, media_with_id(id), m);
        if id == m.id {
            lemma_find_first_characterizes(pre.media, media_with_id(id));
            lemma_media_by_id_props(pre, id);
        }
    }

    assert forall|i: int| 0 <= i < pre.external_ids.len() implies pre.media_kind_of(
        (#[trigger] pre.external_ids[i]).media_id,
    ) == post.media_kind_of(pre.external_ids[i].media_id) by {
        lemma_media_by_id_props(pre, pre.external_ids[i].media_id);
    }
    lemma_tmdb_lookup_congruent(pre, post);

    // invariant clauses of the detail and mapping tables: the ids they
    // reference are strictly below the fresh id
    assert forall|i: int| 0 <= i < post.movies.len() implies post.media_by_id(
        (#[trigger] post.movies[i]).id,
    ) == Some(Media { id: post.movies[i].id, kind: MediaKind::Movie }) by {
        lemma_media_by_id_props(pre, post.movies[i].id);
    }
    assert forall|i: int| 0 <= i < post.shows.len() implies post.media_by_id(
        (#[trigger] post.shows[i]).id,
    ) == Some(Media { id: post.shows[i].id, kind: MediaKind::Show }) by {
        lemma_media_by_id_props(pre, post.shows[i].id);
    }
    assert forall|i: int| 0 <= i < post.seasons.len() implies post.media_by_id(
        (#[trigger] post.seasons[i]).id,
    ) == Some(Media { id: post.seasons[i].id, kind: MediaKind::Season }) by {
        lemma_media_by_id_props(pre, post.seasons[i].id);
    }
    assert forall|i: int| 0 <= i < post.episodes.len() implies post.media_by_id(
        (#[trigger] post.episodes[i]).id,
    ) == Some(Media { id: post.episodes[i].id, kind: MediaKind::Episode }) by {
        lemma_media_by_id_props(pre, post.episodes[i].id);
    }
    assert forall|i: int| 0 <= i < post.external_ids.len() implies post.media_by_id(
        (#[trigger] post.external_ids[i]).media_id,
    ) is Some by {
        lemma_media_by_id_props(pre, post.external_ids[i].media_id);
    }
    assert forall|i: int, j: int|
        #![trigger post.external_ids[i], post.external_ids[j]]
        0 <= i < j < post.external_ids.len() implies ((post.external_ids[i].ids.tmdb_id is Some
        && post.external_ids[i].ids.tmdb_id == post.external_ids[j].ids.tmdb_id)
        ==> post.media_kind_of(post.external_ids[i].media_id) != post.media_kind_of(
        post.external_ids[j].media_id,
    )) by {
        lemma_media_by_id_props(pre, post.external_ids[i].media_id);
        lemma_media_by_id_props(pre, post.external_ids[j].media_id);
    }
    assert forall|i: int| 0 <= i < post.watch_history.len() implies post.media_by_id(
        (#[trigger] post.watch_history[i]).media_id,
    ) == Some(
        Media { id: post.watch_history[i].media_id, kind: post.watch_history[i].media_kind },
    ) by {
        lemma_media_by_id_props(pre, post.watch_history[i].media_id);
    }
    assert forall|i: int| 0 <= i < post.list_items.len() implies post.media_by_id(
        (#[trigger] post.list_items[i]).media_id,
    ) is Some by {
        lemma_media_by_id_props(pre, post.list_items[i].media_id);
    }
}

/// Creates a new canonical entity of the given kind and returns its
/// assigned id. Fails only when the id space is exhausted; never
/// silently drops the insert.
pub fn insert_media(catalog: &mut Catalog, kind: MediaKind) -> (r: Result<Media, InsertMediaError>)
    requires
        old(catalog)@.wf(),
    ensures
        final(catalog)@.wf(),
        match r {
            Ok(m) => create_media_m(old(catalog)@, kind) == Ok::<_, InsertMediaError>(
                (final(catalog)@, m),
            ),
            Err(e) => final(catalog)@ == old(catalog)@ && create_media_m(old(catalog)@, kind)
                == Err::<(CatalogM, Media), _>(e),
        },
{
    if catalog.next_id == i32::MAX {
        return Err(InsertMediaError);
    }
    let m = Media { id: catalog.next_id, kind };
    catalog.media.push(m);
    catalog.next_id = catalog.next_id + 1;
    proof {
        lemma_create_media_wf(old(catalog)@, kind);
        let target = CatalogM {
            media: old(catalog)@.media.push(m),
            next_id: (old(catalog)@.next_id + 1) as i32,
            ..old(catalog)@
        };
        assert(catalog@ =~= target);
    }
    Ok(m)
}

// ---------------------------------------------------------------------
// Recording external identities
// ---------------------------------------------------------------------

/// Model transition of `insert_media_external_id`: reject an unknown
/// media, a second mapping for the same media, a taken tracker id, or a
/// taken per-kind metadata-service id; otherwise append the row.
pub open spec fn record_external_ids_m(
    c: CatalogM,
    media: Media,
    ids: MediaExternalId,
) -> Result<CatalogM, InsertMediaExternalIdError> {
    if c.media_by_id(media.id) != Some(media) {
        Err(InsertMediaExternalIdError::MediaNotFound)
    } else if c.ext_row_by_media(media.id) is Some {
        Err(InsertMediaExternalIdError::AlreadyMapped)
    } else if ids.trakt_id matches Some(t) && c.ext_row_by_trakt(t) is Some {
        Err(InsertMediaExternalIdError::TraktIdConflict)
    } else if ids.tmdb_id matches Some(t) && c.ext_row_by_tmdb(t, media.kind) is Some {
        Err(InsertMediaExternalIdError::TmdbIdConflict)
    } else {
        Ok(
            CatalogM {
                external_ids: c.external_ids.push(ExternalIdRow { media_id: media.id, ids }),
                ..c
            },
        )
    }
}

/// Appending a conflict-free mapping row preserves the invariant and
/// makes the tracker id resolve to the mapped media.
pub proof fn lemma_record_external_wf(pre: CatalogM, media: Media, ids: MediaExternalId)
    requires
        pre.wf(),
        pre.media_by_id(media.id) == Some(media),
        pre.ext_row_by_media(media.id) is None,
        ids.trakt_id matches Some(t) ==> pre.ext_row_by_trakt(t) is None,
        ids.tmdb_id matches Some(t) ==> pre.ext_row_by_tmdb(t, media.kind) is None,
    ensures
        ({
            let row = ExternalIdRow { media_id: media.id, ids };
            let post = CatalogM { external_ids: pre.external_ids.push(row), ..pre };
            &&& post.wf()
            &&& forall|t: i32| #[trigger] post.ext_row_by_trakt(t) == if ids.trakt_id == Some(t) {
                Some(row)
            } else {
                pre.ext_row_by_trakt(t)
            }
            &&& ids.trakt_id matches Some(t) ==> post.media_by_trakt(t) == Some(media)
        }),
{
    let row = ExternalIdRow { media_id: media.id, ids };
    let post = CatalogM { external_ids: pre.external_ids.push(row), ..pre };
    let n = pre.external_ids.len() as int;

    lemma_find_first_characterizes(pre.external_ids, ext_with_media(media.id));
    match ids.trakt_id {
        Some(t) => {
            lemma_find_first_characterizes(pre.external_ids, ext_with_trakt(t));
        },
        None => {},
    }
    match ids.tmdb_id {
        Some(t) => {
            lemma_find_first_characterizes(pre.external_ids, ext_with_tmdb(pre, t, media.kind));
        },
        None => {},
    }

    assert forall|t: i32| #[trigger] post.ext_row_by_trakt(t) == (if ids.trakt_id == Some(t) {
        Some(row)
    } else {
        pre.ext_row_by_trakt(t)
    }) by {
        lemma_find_first_push(pre.external_ids, ext_with_trakt(t), row);
        if ids.trakt_id == Some(t) {
            lemma_find_first_characterizes(pre.external_ids, ext_with_trakt(t));
        }
    }

    // the tmdb uniqueness clause for pairs ending at the new row
    assert forall|i: int, j: int|
        #![trigger post.external_ids[i], post.external_ids[j]]
        0 <= i < j < post.external_ids.len() implies ((post.external_ids[i].ids.tmdb_id is Some
        && post.external_ids[i].ids.tmdb_id == post.external_ids[j].ids.tmdb_id)
        ==> post.media_kind_of(post.external_ids[i].media_id) != post.media_kind_of(
        post.external_ids[j].media_id,
    )) by {
        if j == n {
            assert(post.external_ids[i] == pre.external_ids[i]);
            if post.external_ids[i].ids.tmdb_id is Some && post.external_ids[i].ids.tmdb_id
                == ids.tmdb_id {
                let t = ids.tmdb_id->0;
                assert(!(ext_with_tmdb(pre, t, media.kind)(pre.external_ids[i])));
            }
        }
    }
}

/// Records the external-identity mapping of one media entity. At most
/// one mapping per media: a second call for the same id is a caller
/// error, reported as `AlreadyMapped`.
pub fn insert_media_external_id(
    catalog: &mut Catalog,
    media: &Media,
    external_id: MediaExternalId,
) -> (r: Result<(), InsertMediaExternalIdError>)
    requires
        old(catalog)@.wf(),
    ensures
        final(catalog)@.wf(),
        match r {
            Ok(_) => record_external_ids_m(old(catalog)@, *media, external_id) == Ok::<
                _,
                InsertMediaExternalIdError,
            >(final(catalog)@),
            Err(e) => final(catalog)@ == old(catalog)@ && record_external_ids_m(
                old(catalog)@,
                *media,
                external_id,
            ) == Err::<CatalogM, _>(e),
        },
{
    let found = get_media_by_id(catalog, media.id, None);
    let found_matches = match found {
        Some(f) => {
            proof {
                lemma_media_by_id_props(catalog@, media.id);
            }
            f.kind == media.kind
        },
        None => false,
    };
    if !found_matches {
        return Err(InsertMediaExternalIdError::MediaNotFound);
    }
    if has_mapping_for_media(catalog, media.id) {
        return Err(InsertMediaExternalIdError::AlreadyMapped);
    }
    let trakt_taken = match external_id.trakt_id {
        Some(t) => find_mapped_media_by_trakt(catalog, t).is_some(),
        None => false,
    };
    if trakt_taken {
        return Err(InsertMediaExternalIdError::TraktIdConflict);
    }
    let tmdb_taken = match external_id.tmdb_id {
        Some(t) => find_mapped_media_by_tmdb(catalog, t, media.kind).is_some(),
        None => false,
    };
    if tmdb_taken {
        return Err(InsertMediaExternalIdError::TmdbIdConflict);
    }
    proof {
        lemma_record_external_wf(catalog@, *media, external_id);
    }
    let ghost pre = catalog@;
    catalog.external_ids.push(ExternalIdRow { media_id: media.id, ids: external_id });
    proof {
        let row = ExternalIdRow { media_id: media.id, ids: external_id };
        let target = CatalogM { external_ids: pre.external_ids.push(row), ..pre };
        assert(catalog@ =~= target);
    }
    Ok(())
}

// ---------------------------------------------------------------------
// The ledger: watch history and list membership
// ---------------------------------------------------------------------

/// A watch fact to append: the entity and when it was watched.
#[derive(Clone, Copy, Debug, PartialEq, Eq, Structural)]
pub struct WatchHistory {
    pub watched_at: i64,
    pub media: Media,
}

/// Appending a watch fact failed: the entity is not a current catalog
/// row (or its kind does not match the stored kind).
#[derive(Clone, Copy, Debug, PartialEq, Eq, Structural)]
pub struct InsertWatchHistoryError;

/// Appending a list-membership fact failed: the entity is not a current
/// catalog row.
#[derive(Clone, Copy, Debug, PartialEq, Eq, Structural)]
pub struct InsertListItemError;

/// Model transition of `insert_watch_history`: append one fact; no
/// dedup — identical facts accumulate.
pub open spec fn insert_watch_history_m(c: CatalogM, wh: WatchHistory) -> Result<
    CatalogM,
    InsertWatchHistoryError,
> {
    if c.media_by_id(wh.media.id) != Some(wh.media) {
        Err(InsertWatchHistoryError)
    } else {
        Ok(
            CatalogM {
                watch_history: c.watch_history.push(
                    WatchHistoryRow {
                        media_id: wh.media.id,
                        media_kind: wh.media.kind,
                        watched_at: wh.watched_at,
                    },
                ),
                ..c
            },
        )
    }
}

/// Appends a watch fact. Repeated identical calls each add a row:
/// rewatches are meaningful events.
pub fn insert_watch_history(catalog: &mut Catalog, watch_history: &WatchHistory) -> (r: Result<
    (),
    InsertWatchHistoryError,
>)
    requires
        old(catalog)@.wf(),
    ensures
        final(catalog)@.wf(),
        match r {
            Ok(_) => insert_watch_history_m(old(catalog)@, *watch_history) == Ok::<
                _,
                InsertWatchHistoryError,
            >(final(catalog)@),
            Err(e) => final(catalog)@ == old(catalog)@ && insert_watch_history_m(
                old(catalog)@,
                *watch_history,
            ) == Err::<CatalogM, _>(e),
        },
{
    let found = get_media_by_id(catalog, watch_history.media.id, None);
    let matches_row = match found {
        Some(f) => {
            proof {
                lemma_media_by_id_props(catalog@, watch_history.media.id);
            }
            f.kind == watch_history.media.kind
        },
        None => false,
    };
    if !matches_row {
        return Err(InsertWatchHistoryError);
    }
    let ghost pre = catalog@;
    let row = WatchHistoryRow {
        media_id: watch_history.media.id,
        media_kind: watch_history.media.kind,
        watched_at: watch_history.watched_at,
    };
    catalog.watch_history.push(row);
    proof {
        assert(catalog@ =~= CatalogM { watch_history: pre.watch_history.push(row), ..pre });
    }
    Ok(())
}

/// Model transition of `insert_list_item`: append one membership fact.
pub open spec fn insert_list_item_m(
    c: CatalogM,
    list_id: i32,
    media: Media,
    listed_at: Option<i64>,
) -> Result<CatalogM, InsertListItemError> {
    if c.media_by_id(media.id) is None {
        Err(InsertListItemError)
    } else {
        Ok(
            CatalogM {
                list_items: c.list_items.push(
                    ListItemRow { list_id, media_id: media.id, listed_at },
                ),
                ..c
            },
        )
    }
}

/// Appends a list-membership fact for an existing entity.
pub fn insert_list_item(
    catalog: &mut Catalog,
    list_id: i32,
    media: &Media,
    listed_at: Option<i64>,
) -> (r: Result<(), InsertListItemError>)
    requires
        old(catalog)@.wf(),
    ensures
        final(catalog)@.wf(),
        match r {
            Ok(_) => insert_list_item_m(old(catalog)@, list_id, *media, listed_at) == Ok::<
                _,
                InsertListItemError,
            >(final(catalog)@),
            Err(e) => final(catalog)@ == old(catalog)@ && insert_list_item_m(
                old(catalog)@,
                list_id,
                *media,
                listed_at,
            ) == Err::<CatalogM, _>(e),
        },
{
    if get_media_by_id(catalog, media.id, None).is_none() {
        return Err(InsertListItemError);
    }
    let ghost pre = catalog@;
    let row = ListItemRow { list_id, media_id: media.id, listed_at };
    catalog.list_items.push(row);
    proof {
        assert(catalog@ =~= CatalogM { list_items: pre.list_items.push(row), ..pre });
    }
    Ok(())
}

} // verus!
