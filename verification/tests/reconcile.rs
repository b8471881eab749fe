use grimoire::db::get_media_by_trakt_id;
use grimoire::db::Catalog;
use grimoire::db::MediaKind;
use grimoire::trakt::get_or_create_episode;
use grimoire::trakt::get_or_create_movie;
use grimoire::trakt::get_or_create_season;
use grimoire::trakt::get_or_create_show;
use grimoire::trakt::import_watch_history;
use grimoire::trakt::import_watchlist;
use grimoire::trakt::ImportError;
use grimoire::trakt::TraktEpisode;
use grimoire::trakt::TraktExternalIds;
use grimoire::trakt::TraktMedia;
use grimoire::trakt::TraktMovie;
use grimoire::trakt::TraktSeason;
use grimoire::trakt::TraktShow;
use grimoire::trakt::WatchHistoryEntry;
use grimoire::trakt::WatchlistEntry;

fn trakt_ids(trakt: i32) -> TraktExternalIds {
    TraktExternalIds { trakt, slug: None, tvdb: None, imdb: None, tmdb: None }
}

fn severance() -> TraktShow {
    TraktShow { title: "Severance".to_string(), year: Some(2022), ids: trakt_ids(100) }
}

fn episode_one() -> TraktEpisode {
    TraktEpisode {
        season_number: 1,
        number: 1,
        title: "Good News About Hell".to_string(),
        ids: trakt_ids(999),
    }
}

fn history_entry(watched_at: i64) -> WatchHistoryEntry {
    WatchHistoryEntry {
        watched_at,
        media: TraktMedia::Episode { episode: episode_one(), show: severance() },
    }
}

#[test]
fn reconciling_a_movie_twice_is_idempotent() {
    let mut catalog = Catalog::new();
    let record = TraktMovie { title: "Heat".to_string(), year: Some(1995), ids: trakt_ids(5) };
    let first = get_or_create_movie(&mut catalog, &record).unwrap();
    let media_count = catalog.media.len();
    let movie_count = catalog.movies.len();
    let mapping_count = catalog.external_ids.len();
    let second = get_or_create_movie(&mut catalog, &record).unwrap();
    assert_eq!(first.id, second.id);
    assert_eq!(catalog.media.len(), media_count);
    assert_eq!(catalog.movies.len(), movie_count);
    assert_eq!(catalog.external_ids.len(), mapping_count);
}

#[test]
fn reconciling_an_episode_creates_the_missing_ancestors_once() {
    let mut catalog = Catalog::new();
    let show = get_or_create_show(&mut catalog, &severance()).unwrap();
    assert_eq!(show.kind, MediaKind::Show);
    let season = get_or_create_season(&mut catalog, &show, 1).unwrap();
    assert_eq!(season.kind, MediaKind::Season);
    let episode = get_or_create_episode(&mut catalog, &show, &season, &episode_one()).unwrap();
    assert_eq!(episode.kind, MediaKind::Episode);
    assert_eq!(catalog.shows.len(), 1);
    assert_eq!(catalog.seasons.len(), 1);
    assert_eq!(catalog.episodes.len(), 1);
    // the placeholder season carries the synthesized title
    assert_eq!(catalog.seasons[0].title.as_str(), "Season 1");
    // a second pass finds everything and creates nothing
    let show2 = get_or_create_show(&mut catalog, &severance()).unwrap();
    let season2 = get_or_create_season(&mut catalog, &show2, 1).unwrap();
    let episode2 = get_or_create_episode(&mut catalog, &show2, &season2, &episode_one()).unwrap();
    assert_eq!(show2, show);
    assert_eq!(season2, season);
    assert_eq!(episode2, episode);
    assert_eq!(catalog.shows.len(), 1);
    assert_eq!(catalog.seasons.len(), 1);
    assert_eq!(catalog.episodes.len(), 1);
}

#[test]
fn existing_data_wins_on_a_match() {
    let mut catalog = Catalog::new();
    let original = TraktShow { title: "The Wire".to_string(), year: Some(2002), ids: trakt_ids(3) };
    let renamed = TraktShow { title: "Renamed".to_string(), year: Some(2020), ids: trakt_ids(3) };
    let first = get_or_create_show(&mut catalog, &original).unwrap();
    let second = get_or_create_show(&mut catalog, &renamed).unwrap();
    assert_eq!(first, second);
    assert_eq!(catalog.shows.len(), 1);
    assert_eq!(catalog.shows[0].title.as_str(), "The Wire");
}

#[test]
fn importing_the_same_history_twice_doubles_only_the_ledger() {
    let mut catalog = Catalog::new();
    let entries = vec![history_entry(1000), history_entry(2000)];
    import_watch_history(&mut catalog, &entries).unwrap();
    assert_eq!(catalog.shows.len(), 1);
    assert_eq!(catalog.seasons.len(), 1);
    assert_eq!(catalog.episodes.len(), 1);
    assert_eq!(catalog.watch_history.len(), 2);
    let media_count = catalog.media.len();
    import_watch_history(&mut catalog, &entries).unwrap();
    assert_eq!(catalog.media.len(), media_count);
    assert_eq!(catalog.shows.len(), 1);
    assert_eq!(catalog.seasons.len(), 1);
    assert_eq!(catalog.episodes.len(), 1);
    assert_eq!(catalog.watch_history.len(), 4);
}

#[test]
fn severance_example_one_row_each_two_watches() {
    let mut catalog = Catalog::new();
    let one = vec![history_entry(42)];
    import_watch_history(&mut catalog, &one).unwrap();
    import_watch_history(&mut catalog, &one).unwrap();
    assert_eq!(catalog.shows.len(), 1);
    assert_eq!(catalog.seasons.len(), 1);
    assert_eq!(catalog.episodes.len(), 1);
    assert_eq!(catalog.watch_history.len(), 2);
    assert_eq!(catalog.shows[0].title.as_str(), "Severance");
    let episode = get_media_by_trakt_id(&catalog, 999).unwrap();
    assert_eq!(episode.kind, MediaKind::Episode);
}

#[test]
fn a_show_record_in_a_history_file_is_invalid_input() {
    let mut catalog = Catalog::new();
    let entries = vec![WatchHistoryEntry {
        watched_at: 5,
        media: TraktMedia::Show { show: severance() },
    }];
    assert_eq!(
        import_watch_history(&mut catalog, &entries),
        Err(ImportError::UnsupportedMediaType)
    );
    assert_eq!(catalog.media.len(), 0);
    assert_eq!(catalog.watch_history.len(), 0);
}

fn ids_with_tmdb(trakt: i32, tmdb: i32) -> TraktExternalIds {
    TraktExternalIds { trakt, slug: None, tvdb: None, imdb: None, tmdb: Some(tmdb) }
}

#[test]
fn a_failing_record_rolls_back_its_own_ancestors() {
    let mut catalog = Catalog::new();
    // an episode already holds metadata-service id 500
    let first = vec![WatchHistoryEntry {
        watched_at: 1,
        media: TraktMedia::Episode {
            episode: TraktEpisode {
                season_number: 1,
                number: 1,
                title: "One".to_string(),
                ids: ids_with_tmdb(999, 500),
            },
            show: severance(),
        },
    }];
    import_watch_history(&mut catalog, &first).unwrap();
    let media_count = catalog.media.len();
    // a record for a brand-new show whose episode claims the same
    // metadata-service id: the episode insert fails only after the new
    // show and season were created in the same call
    let clashing = vec![WatchHistoryEntry {
        watched_at: 2,
        media: TraktMedia::Episode {
            episode: TraktEpisode {
                season_number: 1,
                number: 1,
                title: "Clash".to_string(),
                ids: ids_with_tmdb(888, 500),
            },
            show: TraktShow { title: "Other".to_string(), year: None, ids: trakt_ids(200) },
        },
    }];
    let r = import_watch_history(&mut catalog, &clashing);
    assert!(r.is_err());
    // nothing of the failed record persists; the earlier record does
    assert_eq!(catalog.media.len(), media_count);
    assert_eq!(catalog.shows.len(), 1);
    assert_eq!(catalog.seasons.len(), 1);
    assert_eq!(catalog.episodes.len(), 1);
    assert_eq!(catalog.watch_history.len(), 1);
}

#[test]
fn earlier_records_persist_when_a_later_one_fails() {
    let mut catalog = Catalog::new();
    let entries = vec![
        history_entry(1),
        WatchHistoryEntry { watched_at: 2, media: TraktMedia::Season {
            season: TraktSeason { number: 2, ids: trakt_ids(55) },
            show: severance(),
        } },
    ];
    let r = import_watch_history(&mut catalog, &entries);
    assert_eq!(r, Err(ImportError::UnsupportedMediaType));
    // the first record's entities and fact persist
    assert_eq!(catalog.shows.len(), 1);
    assert_eq!(catalog.seasons.len(), 1);
    assert_eq!(catalog.episodes.len(), 1);
    assert_eq!(catalog.watch_history.len(), 1);
}

#[test]
fn watchlist_accepts_all_four_record_kinds() {
    let mut catalog = Catalog::new();
    let entries = vec![
        WatchlistEntry {
            listed_at: 1,
            media: TraktMedia::Movie {
                movie: TraktMovie { title: "Ran".to_string(), year: Some(1985), ids: trakt_ids(10) },
            },
        },
        WatchlistEntry { listed_at: 2, media: TraktMedia::Show { show: severance() } },
        WatchlistEntry {
            listed_at: 3,
            media: TraktMedia::Season {
                season: TraktSeason { number: 1, ids: trakt_ids(11) },
                show: severance(),
            },
        },
        WatchlistEntry {
            listed_at: 4,
            media: TraktMedia::Episode { episode: episode_one(), show: severance() },
        },
    ];
    import_watchlist(&mut catalog, &entries).unwrap();
    assert_eq!(catalog.list_items.len(), 4);
    assert!(catalog.list_items.iter().all(|item| item.list_id == 1));
    assert_eq!(catalog.movies.len(), 1);
    assert_eq!(catalog.shows.len(), 1);
    assert_eq!(catalog.seasons.len(), 1);
    assert_eq!(catalog.episodes.len(), 1);
}
