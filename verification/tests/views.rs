use grimoire::db::insert_media;
use grimoire::db::insert_watch_history;
use grimoire::db::Catalog;
use grimoire::db::MediaKind;
use grimoire::db::WatchHistory;
use grimoire::history::get_watch_history;
use grimoire::history::GetWatchHistoryError;
use grimoire::history::GetWatchHistoryFilter;
use grimoire::history::WatchHistoryEntryMedia;
use grimoire::pages::movie_page;
use grimoire::pages::show_episode_page;
use grimoire::pages::show_page;
use grimoire::pages::show_season_page;
use grimoire::pages::GetShowEpisodeParams;
use grimoire::pages::GetShowSeasonParams;
use grimoire::text::i32_to_decimal;
use grimoire::text::season_title;
use grimoire::tmdb::build_image_url;
use grimoire::tmdb::ImageSize;
use grimoire::trakt::is_watch_history_file;
use grimoire::trakt::is_watchlist_file;
use grimoire::txn::insert_episode;
use grimoire::txn::insert_movie;
use grimoire::txn::insert_season;
use grimoire::txn::insert_show;
use grimoire::txn::NewEpisode;
use grimoire::txn::NewMovie;
use grimoire::txn::NewSeason;
use grimoire::txn::NewShow;

fn movie(title: &str) -> NewMovie {
    NewMovie {
        title: title.to_string(),
        release_year: 2000,
        overview: None,
        tagline: None,
        runtime: None,
        external_ids: None,
    }
}

fn show(title: &str) -> NewShow {
    NewShow {
        title: title.to_string(),
        release_year: 2010,
        overview: None,
        tagline: None,
        episode_runtime: None,
        external_ids: None,
        seasons: None,
    }
}

fn season(title: &str, number: i32) -> NewSeason {
    NewSeason { title: title.to_string(), number, overview: None, external_ids: None, episodes: None }
}

fn episode(title: &str, number: i32) -> NewEpisode {
    NewEpisode {
        title: title.to_string(),
        number,
        overview: None,
        runtime: None,
        external_ids: None,
    }
}

#[test]
fn history_is_ordered_newest_first_and_cut_to_the_limit() {
    let mut catalog = Catalog::new();
    let m = insert_movie(&mut catalog, movie("M")).unwrap();
    for t in [10i64, 5, 20] {
        insert_watch_history(&mut catalog, &WatchHistory { watched_at: t, media: m }).unwrap();
    }
    let all = get_watch_history(&catalog, 10, None).unwrap();
    let stamps: Vec<i64> = all.iter().map(|e| e.watched_at).collect();
    assert_eq!(stamps, vec![20, 10, 5]);
    let two = get_watch_history(&catalog, 2, None).unwrap();
    let stamps2: Vec<i64> = two.iter().map(|e| e.watched_at).collect();
    assert_eq!(stamps2, vec![20, 10]);
}

#[test]
fn history_selects_kind_specific_fields() {
    let mut catalog = Catalog::new();
    let m = insert_movie(&mut catalog, movie("Alien")).unwrap();
    let sh = insert_show(&mut catalog, show("Farscape")).unwrap();
    let se = insert_season(&mut catalog, &sh, season("Season 1", 1)).unwrap();
    let ep = insert_episode(&mut catalog, &sh, &se, episode("Premiere", 1)).unwrap();
    insert_watch_history(&mut catalog, &WatchHistory { watched_at: 1, media: m }).unwrap();
    insert_watch_history(&mut catalog, &WatchHistory { watched_at: 2, media: ep }).unwrap();
    let entries = get_watch_history(&catalog, 10, None).unwrap();
    assert_eq!(entries.len(), 2);
    match &entries[0].media {
        WatchHistoryEntryMedia::Episode {
            episode_title,
            episode_number,
            season_number,
            show_title,
            ..
        } => {
            assert_eq!(episode_title.as_str(), "Premiere");
            assert_eq!(*episode_number, 1);
            assert_eq!(*season_number, 1);
            assert_eq!(show_title.as_str(), "Farscape");
        },
        _ => panic!("expected an episode entry first"),
    }
    match &entries[1].media {
        WatchHistoryEntryMedia::Movie { title, .. } => assert_eq!(title.as_str(), "Alien"),
        _ => panic!("expected a movie entry second"),
    }
}

#[test]
fn history_filters_by_movie_episode_and_show() {
    let mut catalog = Catalog::new();
    let m = insert_movie(&mut catalog, movie("Solo")).unwrap();
    let sh = insert_show(&mut catalog, show("S")).unwrap();
    let se = insert_season(&mut catalog, &sh, season("Season 1", 1)).unwrap();
    let ep = insert_episode(&mut catalog, &sh, &se, episode("One", 1)).unwrap();
    insert_watch_history(&mut catalog, &WatchHistory { watched_at: 1, media: m }).unwrap();
    insert_watch_history(&mut catalog, &WatchHistory { watched_at: 2, media: ep }).unwrap();
    insert_watch_history(&mut catalog, &WatchHistory { watched_at: 3, media: ep }).unwrap();
    let movies = get_watch_history(&catalog, 10, Some(GetWatchHistoryFilter::Movie(m.id))).unwrap();
    assert_eq!(movies.len(), 1);
    let eps = get_watch_history(&catalog, 10, Some(GetWatchHistoryFilter::Episode(ep.id))).unwrap();
    assert_eq!(eps.len(), 2);
    let of_show = get_watch_history(&catalog, 10, Some(GetWatchHistoryFilter::Show(sh.id))).unwrap();
    assert_eq!(of_show.len(), 2);
    let other = get_watch_history(&catalog, 10, Some(GetWatchHistoryFilter::Show(m.id))).unwrap();
    assert_eq!(other.len(), 0);
}

#[test]
fn a_watch_of_an_unreconstructible_kind_is_a_recoverable_error() {
    let mut catalog = Catalog::new();
    // a bare Season entity with no detail rows can be watched, but the
    // unfiltered history can then not be reconstructed
    let bare = insert_media(&mut catalog, MediaKind::Season).unwrap();
    insert_watch_history(&mut catalog, &WatchHistory { watched_at: 9, media: bare }).unwrap();
    match get_watch_history(&catalog, 10, None) {
        Err(err) => assert_eq!(err, GetWatchHistoryError::InvariantViolation),
        Ok(_) => panic!("expected an invariant violation"),
    }
}

#[test]
fn movie_page_counts_plays() {
    let mut catalog = Catalog::new();
    let m = insert_movie(&mut catalog, movie("Stalker")).unwrap();
    insert_watch_history(&mut catalog, &WatchHistory { watched_at: 1, media: m }).unwrap();
    insert_watch_history(&mut catalog, &WatchHistory { watched_at: 2, media: m }).unwrap();
    let page = movie_page(&catalog, m.id).unwrap();
    assert_eq!(page.title.as_str(), "Stalker");
    assert_eq!(page.play_count, 2);
    assert!(movie_page(&catalog, m.id + 1).is_none());
}

#[test]
fn show_page_aggregates_seasons_and_totals() {
    let mut catalog = Catalog::new();
    let sh = insert_show(&mut catalog, show("Lodge 49")).unwrap();
    let s1 = insert_season(&mut catalog, &sh, season("Season 1", 1)).unwrap();
    let s2 = insert_season(&mut catalog, &sh, season("Season 2", 2)).unwrap();
    let e11 = insert_episode(&mut catalog, &sh, &s1, episode("One", 1)).unwrap();
    let _e12 = insert_episode(&mut catalog, &sh, &s1, episode("Two", 2)).unwrap();
    let e21 = insert_episode(&mut catalog, &sh, &s2, episode("Three", 1)).unwrap();
    insert_watch_history(&mut catalog, &WatchHistory { watched_at: 1, media: e11 }).unwrap();
    insert_watch_history(&mut catalog, &WatchHistory { watched_at: 2, media: e11 }).unwrap();
    insert_watch_history(&mut catalog, &WatchHistory { watched_at: 3, media: e21 }).unwrap();
    let page = show_page(&catalog, sh.id).unwrap();
    assert_eq!(page.total_episodes_count, 3);
    assert_eq!(page.total_episodes_watched, 2);
    assert_eq!(page.total_play_count, 3);
    assert_eq!(page.seasons.len(), 2);
    assert_eq!(page.seasons[0].episodes_count, 2);
    assert_eq!(page.seasons[0].episodes_watched, 1);
    assert_eq!(page.seasons[0].play_count, 2);
    assert_eq!(page.seasons[1].episodes_count, 1);
    assert_eq!(page.seasons[1].play_count, 1);
}

#[test]
fn season_page_lists_the_episodes() {
    let mut catalog = Catalog::new();
    let sh = insert_show(&mut catalog, show("Show")).unwrap();
    let se = insert_season(&mut catalog, &sh, season("Season 1", 1)).unwrap();
    let e1 = insert_episode(&mut catalog, &sh, &se, episode("One", 1)).unwrap();
    insert_watch_history(&mut catalog, &WatchHistory { watched_at: 4, media: e1 }).unwrap();
    let page = show_season_page(&catalog, GetShowSeasonParams { show_id: sh.id, season_number: 1 })
        .unwrap();
    assert_eq!(page.total_episodes_count, 1);
    assert_eq!(page.total_episodes_watched, 1);
    assert_eq!(page.total_play_count, 1);
    assert_eq!(page.episodes.len(), 1);
    assert_eq!(page.episodes[0].title.as_str(), "One");
    assert_eq!(page.episodes[0].play_count, 1);
    // an empty season renders as absent
    let _empty = insert_season(&mut catalog, &sh, season("Season 2", 2)).unwrap();
    assert!(show_season_page(
        &catalog,
        GetShowSeasonParams { show_id: sh.id, season_number: 2 }
    )
    .is_none());
}

#[test]
fn episode_page_joins_show_and_season() {
    let mut catalog = Catalog::new();
    let sh = insert_show(&mut catalog, show("Show")).unwrap();
    let se = insert_season(&mut catalog, &sh, season("Season 3", 3)).unwrap();
    let ep = insert_episode(&mut catalog, &sh, &se, episode("Finale", 9)).unwrap();
    insert_watch_history(&mut catalog, &WatchHistory { watched_at: 1, media: ep }).unwrap();
    let page = show_episode_page(
        &catalog,
        GetShowEpisodeParams { show_id: sh.id, season_number: 3, episode_number: 9 },
    )
    .unwrap();
    assert_eq!(page.title.as_str(), "Finale");
    assert_eq!(page.season_number, 3);
    assert_eq!(page.episode_number, 9);
    assert_eq!(page.play_count, 1);
    assert!(show_episode_page(
        &catalog,
        GetShowEpisodeParams { show_id: sh.id, season_number: 3, episode_number: 10 },
    )
    .is_none());
}

#[test]
fn pages_list_seasons_and_episodes_by_ascending_number() {
    let mut catalog = Catalog::new();
    let sh = insert_show(&mut catalog, show("Out Of Order")).unwrap();
    let s2 = insert_season(&mut catalog, &sh, season("Season 2", 2)).unwrap();
    let s1 = insert_season(&mut catalog, &sh, season("Season 1", 1)).unwrap();
    insert_episode(&mut catalog, &sh, &s2, episode("B", 2)).unwrap();
    insert_episode(&mut catalog, &sh, &s2, episode("A", 1)).unwrap();
    insert_episode(&mut catalog, &sh, &s1, episode("C", 1)).unwrap();
    let page = show_page(&catalog, sh.id).unwrap();
    let numbers: Vec<i32> = page.seasons.iter().map(|s| s.number).collect();
    assert_eq!(numbers, vec![1, 2]);
    let season_page =
        show_season_page(&catalog, GetShowSeasonParams { show_id: sh.id, season_number: 2 })
            .unwrap();
    let episode_numbers: Vec<i32> = season_page.episodes.iter().map(|e| e.number).collect();
    assert_eq!(episode_numbers, vec![1, 2]);
}

#[test]
fn decimal_rendering_matches_the_usual_notation() {
    assert_eq!(i32_to_decimal(0).as_str(), "0");
    assert_eq!(i32_to_decimal(7).as_str(), "7");
    assert_eq!(i32_to_decimal(42).as_str(), "42");
    assert_eq!(i32_to_decimal(1000).as_str(), "1000");
    assert_eq!(i32_to_decimal(-7).as_str(), "-7");
    assert_eq!(i32_to_decimal(i32::MAX).as_str(), "2147483647");
    assert_eq!(i32_to_decimal(i32::MIN).as_str(), "-2147483648");
}

#[test]
fn season_titles_are_synthesized_from_the_number() {
    assert_eq!(season_title(1).as_str(), "Season 1");
    assert_eq!(season_title(12).as_str(), "Season 12");
    assert_eq!(season_title(0).as_str(), "Season 0");
}

#[test]
fn image_urls_are_base_size_path() {
    let size = ImageSize("w500".to_string());
    let url = build_image_url("https://img.example/t/p/", &size, "/abc.jpg");
    assert_eq!(url.as_str(), "https://img.example/t/p/w500/abc.jpg");
}

#[test]
fn export_paths_are_classified_by_convention() {
    assert!(is_watch_history_file("user/watched/history-2020.json"));
    assert!(is_watch_history_file("x/watched/history-part1.json"));
    assert!(!is_watch_history_file("user/watched/history-2020.csv"));
    assert!(!is_watch_history_file("user/ratings/history-2020.json"));
    assert!(is_watchlist_file("user/lists/watchlist.json"));
    assert!(!is_watchlist_file("user/lists/watchlist.json.bak"));
    assert!(!is_watchlist_file("watchlist.json"));
}
