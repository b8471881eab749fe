use grimoire::db::get_media_by_id;
use grimoire::db::get_media_by_tmdb_id;
use grimoire::db::get_media_by_trakt_id;
use grimoire::db::get_season_by_show_and_number;
use grimoire::db::insert_media;
use grimoire::db::insert_media_external_id;
use grimoire::db::insert_watch_history;
use grimoire::db::Catalog;
use grimoire::db::InsertMediaExternalIdError;
use grimoire::db::Media;
use grimoire::db::MediaExternalId;
use grimoire::db::MediaKind;
use grimoire::db::WatchHistory;
use grimoire::tmdb::TmdbId;
use grimoire::txn::insert_episode;
use grimoire::txn::insert_movie;
use grimoire::txn::insert_season;
use grimoire::txn::insert_show;
use grimoire::txn::EpisodeRowError;
use grimoire::txn::InsertEpisodeError;
use grimoire::txn::InsertSeasonError;
use grimoire::txn::InsertShowError;
use grimoire::txn::NewEpisode;
use grimoire::txn::NewMovie;
use grimoire::txn::NewSeason;
use grimoire::txn::NewShow;
use grimoire::txn::SeasonRowError;

fn no_ids() -> Option<MediaExternalId> {
    None
}

fn ids(trakt: Option<i32>, tmdb: Option<i32>) -> MediaExternalId {
    MediaExternalId { trakt_id: trakt, trakt_slug: None, tvdb_id: None, imdb_id: None, tmdb_id: tmdb }
}

fn new_movie(title: &str, year: i32, external: Option<MediaExternalId>) -> NewMovie {
    NewMovie {
        title: title.to_string(),
        release_year: year,
        overview: None,
        tagline: None,
        runtime: None,
        external_ids: external,
    }
}

fn new_show(title: &str, year: i32, external: Option<MediaExternalId>) -> NewShow {
    NewShow {
        title: title.to_string(),
        release_year: year,
        overview: None,
        tagline: None,
        episode_runtime: None,
        external_ids: external,
        seasons: None,
    }
}

fn new_season(title: &str, number: i32) -> NewSeason {
    NewSeason { title: title.to_string(), number, overview: None, external_ids: None, episodes: None }
}

fn new_episode(title: &str, number: i32) -> NewEpisode {
    NewEpisode {
        title: title.to_string(),
        number,
        overview: None,
        runtime: None,
        external_ids: None,
    }
}

#[test]
fn create_then_get_returns_same_id_and_kind_for_all_kinds() {
    let mut catalog = Catalog::new();
    for kind in [MediaKind::Movie, MediaKind::Show, MediaKind::Season, MediaKind::Episode] {
        let media = insert_media(&mut catalog, kind).unwrap();
        let found = get_media_by_id(&catalog, media.id, None).unwrap();
        assert_eq!(found.id, media.id);
        assert_eq!(found.kind, kind);
        let filtered = get_media_by_id(&catalog, media.id, Some(kind)).unwrap();
        assert_eq!(filtered, media);
    }
}

#[test]
fn kind_filter_mismatch_is_absent_not_an_error() {
    let mut catalog = Catalog::new();
    let movie = insert_media(&mut catalog, MediaKind::Movie).unwrap();
    assert!(get_media_by_id(&catalog, movie.id, Some(MediaKind::Show)).is_none());
}

#[test]
fn ids_are_assigned_sequentially_from_one() {
    let mut catalog = Catalog::new();
    let first = insert_media(&mut catalog, MediaKind::Movie).unwrap();
    let second = insert_media(&mut catalog, MediaKind::Show).unwrap();
    assert_eq!(first.id, 1);
    assert_eq!(second.id, 2);
}

#[test]
fn mapping_rejects_unknown_media_and_double_mapping() {
    let mut catalog = Catalog::new();
    let media = insert_media(&mut catalog, MediaKind::Movie).unwrap();
    let ghost = Media { id: 99, kind: MediaKind::Movie };
    assert_eq!(
        insert_media_external_id(&mut catalog, &ghost, ids(Some(1), None)),
        Err(InsertMediaExternalIdError::MediaNotFound)
    );
    assert!(insert_media_external_id(&mut catalog, &media, ids(Some(1), None)).is_ok());
    assert_eq!(
        insert_media_external_id(&mut catalog, &media, ids(Some(2), None)),
        Err(InsertMediaExternalIdError::AlreadyMapped)
    );
}

#[test]
fn tracker_id_is_unique_across_all_kinds() {
    let mut catalog = Catalog::new();
    let movie = insert_media(&mut catalog, MediaKind::Movie).unwrap();
    let show = insert_media(&mut catalog, MediaKind::Show).unwrap();
    assert!(insert_media_external_id(&mut catalog, &movie, ids(Some(77), None)).is_ok());
    assert_eq!(
        insert_media_external_id(&mut catalog, &show, ids(Some(77), None)),
        Err(InsertMediaExternalIdError::TraktIdConflict)
    );
    let found = get_media_by_trakt_id(&catalog, 77).unwrap();
    assert_eq!(found, movie);
}

#[test]
fn metadata_service_id_is_unique_only_within_a_kind() {
    let mut catalog = Catalog::new();
    let movie = insert_media(&mut catalog, MediaKind::Movie).unwrap();
    let show = insert_media(&mut catalog, MediaKind::Show).unwrap();
    assert!(insert_media_external_id(&mut catalog, &movie, ids(None, Some(438631))).is_ok());
    // the same numeric id is free in the show namespace
    assert!(insert_media_external_id(&mut catalog, &show, ids(None, Some(438631))).is_ok());
    // but taken within the movie namespace
    let movie2 = insert_media(&mut catalog, MediaKind::Movie).unwrap();
    assert_eq!(
        insert_media_external_id(&mut catalog, &movie2, ids(None, Some(438631))),
        Err(InsertMediaExternalIdError::TmdbIdConflict)
    );
    let by_movie = get_media_by_tmdb_id(&catalog, &TmdbId(438631), &MediaKind::Movie).unwrap();
    let by_show = get_media_by_tmdb_id(&catalog, &TmdbId(438631), &MediaKind::Show).unwrap();
    assert_eq!(by_movie, movie);
    assert_eq!(by_show, show);
    assert_ne!(by_movie.id, by_show.id);
}

#[test]
fn dune_example_namespace_independence() {
    let mut catalog = Catalog::new();
    let dune = insert_movie(
        &mut catalog,
        new_movie("Dune", 2021, Some(ids(None, Some(438631)))),
    )
    .unwrap();
    assert_eq!(
        get_media_by_tmdb_id(&catalog, &TmdbId(438631), &MediaKind::Movie),
        Some(dune)
    );
    assert_eq!(get_media_by_tmdb_id(&catalog, &TmdbId(438631), &MediaKind::Show), None);
    // a show later claims the same metadata-service id
    let other = insert_show(
        &mut catalog,
        new_show("Dune: The Series", 2025, Some(ids(None, Some(438631)))),
    )
    .unwrap();
    assert_eq!(
        get_media_by_tmdb_id(&catalog, &TmdbId(438631), &MediaKind::Movie),
        Some(dune)
    );
    assert_eq!(
        get_media_by_tmdb_id(&catalog, &TmdbId(438631), &MediaKind::Show),
        Some(other)
    );
}

#[test]
fn hierarchical_insert_builds_show_season_episode() {
    let mut catalog = Catalog::new();
    let show = insert_show(&mut catalog, new_show("Severance", 2022, no_ids())).unwrap();
    assert_eq!(show.kind, MediaKind::Show);
    let season = insert_season(&mut catalog, &show, new_season("Season 1", 1)).unwrap();
    assert_eq!(season.kind, MediaKind::Season);
    let episode = insert_episode(&mut catalog, &show, &season, new_episode("Good News", 1))
        .unwrap();
    assert_eq!(episode.kind, MediaKind::Episode);
    assert_eq!(
        get_season_by_show_and_number(&catalog, &show, 1),
        Some(season)
    );
    assert_eq!(catalog.media.len(), 3);
    assert_eq!(catalog.shows.len(), 1);
    assert_eq!(catalog.seasons.len(), 1);
    assert_eq!(catalog.episodes.len(), 1);
}

#[test]
fn nested_show_insert_is_one_atomic_unit() {
    let mut catalog = Catalog::new();
    let mut season_one = new_season("Season 1", 1);
    season_one.episodes = Some(vec![new_episode("Pilot", 1), new_episode("Two", 2)]);
    let nested = NewShow {
        title: "Counterpart".to_string(),
        release_year: 2017,
        overview: None,
        tagline: None,
        episode_runtime: Some(60),
        external_ids: None,
        seasons: Some(vec![season_one]),
    };
    let show = insert_show(&mut catalog, nested).unwrap();
    assert_eq!(show.kind, MediaKind::Show);
    assert_eq!(catalog.shows.len(), 1);
    assert_eq!(catalog.seasons.len(), 1);
    assert_eq!(catalog.episodes.len(), 2);

    // a duplicate season number inside the unit rolls the whole unit back
    let bad = NewShow {
        title: "Broken".to_string(),
        release_year: 2000,
        overview: None,
        tagline: None,
        episode_runtime: None,
        external_ids: None,
        seasons: Some(vec![new_season("Season 1", 1), new_season("Also season 1", 1)]),
    };
    let before_media = catalog.media.len();
    let r = insert_show(&mut catalog, bad);
    assert_eq!(
        r,
        Err(InsertShowError::InsertSeason(InsertSeasonError::InsertSeason(
            SeasonRowError::DuplicateNumber
        )))
    );
    assert_eq!(catalog.media.len(), before_media);
    assert_eq!(catalog.shows.len(), 1);
    assert_eq!(catalog.seasons.len(), 1);
    assert_eq!(catalog.episodes.len(), 2);
}

#[test]
fn season_requires_existing_show_and_fresh_number() {
    let mut catalog = Catalog::new();
    let ghost_show = Media { id: 42, kind: MediaKind::Show };
    assert_eq!(
        insert_season(&mut catalog, &ghost_show, new_season("Season 1", 1)),
        Err(InsertSeasonError::InsertSeason(SeasonRowError::ShowNotFound))
    );
    let show = insert_show(&mut catalog, new_show("Show", 2000, no_ids())).unwrap();
    insert_season(&mut catalog, &show, new_season("Season 1", 1)).unwrap();
    assert_eq!(
        insert_season(&mut catalog, &show, new_season("Season 1 again", 1)),
        Err(InsertSeasonError::InsertSeason(SeasonRowError::DuplicateNumber))
    );
}

#[test]
fn episode_requires_matching_season_and_fresh_number() {
    let mut catalog = Catalog::new();
    let show = insert_show(&mut catalog, new_show("A", 2000, no_ids())).unwrap();
    let other_show = insert_show(&mut catalog, new_show("B", 2001, no_ids())).unwrap();
    let season = insert_season(&mut catalog, &show, new_season("Season 1", 1)).unwrap();
    // the season belongs to `show`, not `other_show`
    assert_eq!(
        insert_episode(&mut catalog, &other_show, &season, new_episode("X", 1)),
        Err(InsertEpisodeError::InsertEpisode(EpisodeRowError::SeasonNotFound))
    );
    insert_episode(&mut catalog, &show, &season, new_episode("X", 1)).unwrap();
    assert_eq!(
        insert_episode(&mut catalog, &show, &season, new_episode("Y", 1)),
        Err(InsertEpisodeError::InsertEpisode(EpisodeRowError::DuplicateNumber))
    );
}

#[test]
fn watch_history_accumulates_identical_facts() {
    let mut catalog = Catalog::new();
    let movie = insert_movie(&mut catalog, new_movie("M", 1999, no_ids())).unwrap();
    let fact = WatchHistory { watched_at: 1000, media: movie };
    insert_watch_history(&mut catalog, &fact).unwrap();
    insert_watch_history(&mut catalog, &fact).unwrap();
    assert_eq!(catalog.watch_history.len(), 2);
}

#[test]
fn watch_history_rejects_unknown_media() {
    let mut catalog = Catalog::new();
    let ghost = Media { id: 7, kind: MediaKind::Movie };
    assert!(insert_watch_history(&mut catalog, &WatchHistory { watched_at: 1, media: ghost })
        .is_err());
}
