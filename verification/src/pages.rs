//! Display-ready projections of the catalog: one record per page the
//! catalog can answer about a movie, a show, a season or an episode,
//! each with its play counts. Thin read-only reporting over the write
//! path; a missing entity is "absent", never an error.

use vstd::prelude::*;

use crate::db::find_episode_by_season_and_number;
use crate::db::find_movie_row;
use crate::db::find_season_by_show_and_number;
use crate::db::find_show_row;
use crate::db::Catalog;
use crate::db::CatalogM;
use crate::db::EpisodeRow;
use crate::db::MediaKind;
use crate::db::SeasonRow;
use crate::db::WatchHistoryRow;
use crate::scan::count_matching;
use crate::scan::filter_matching;
use crate::scan::lemma_count_matching_skip_step;
use crate::scan::lemma_filter_matching_count;
use crate::scan::lemma_filter_matching_skip_step;

verus! {

// ---------------------------------------------------------------------
// Page records
// ---------------------------------------------------------------------

/// The movie page: the detail fields and how often it was watched.
#[derive(Debug, Clone)]
pub struct MovieTemplate {
    pub id: i32,
    pub title: String,
    pub release_year: i32,
    pub play_count: usize,
    pub overview: Option<String>,
    pub tagline: Option<String>,
    pub runtime: Option<i32>,
}

/// One season line of the show page.
#[derive(Debug, Clone)]
pub struct SeasonSummary {
    pub title: String,
    pub number: i32,
    pub episodes_count: usize,
    pub episodes_watched: usize,
    pub play_count: usize,
}

/// The show page: the detail fields, the seasons with their counts, and
/// the totals over all of them.
#[derive(Debug, Clone)]
pub struct ShowTemplate {
    pub id: i32,
    pub title: String,
    pub release_year: i32,
    pub overview: Option<String>,
    pub tagline: Option<String>,
    pub episode_runtime: Option<i32>,
    pub total_episodes_count: usize,
    pub total_episodes_watched: usize,
    pub total_play_count: usize,
    pub seasons: Vec<SeasonSummary>,
}

/// One episode line of the season page.
#[derive(Debug, Clone)]
pub struct EpisodeSummary {
    pub id: i32,
    pub title: String,
    pub number: i32,
    pub overview: Option<String>,
    pub play_count: usize,
}

/// The season page: the season of one show, its episodes and their
/// counts.
#[derive(Debug, Clone)]
pub struct ShowSeasonTemplate {
    pub title: String,
    pub season_number: i32,
    pub show_id: i32,
    pub show_title: String,
    pub overview: Option<String>,
    pub total_episodes_count: usize,
    pub total_episodes_watched: usize,
    pub total_play_count: usize,
    pub episodes: Vec<EpisodeSummary>,
}

/// The episode page.
#[derive(Debug, Clone)]
pub struct ShowEpisodeTemplate {
    pub episode_id: i32,
    pub title: String,
    pub episode_number: i32,
    pub show_id: i32,
    pub show_title: String,
    pub season_title: String,
    pub season_number: i32,
    pub overview: Option<String>,
    pub play_count: usize,
}

/// How a season page is addressed: by show and season number.
#[derive(Clone, Copy, Debug, PartialEq, Eq, Structural)]
pub struct GetShowSeasonParams {
    pub show_id: i32,
    pub season_number: i32,
}

/// How an episode page is addressed: by show, season number and episode
/// number.
#[derive(Clone, Copy, Debug, PartialEq, Eq, Structural)]
pub struct GetShowEpisodeParams {
    pub show_id: i32,
    pub season_number: i32,
    pub episode_number: i32,
}

// ---------------------------------------------------------------------
// What the counts count
// ---------------------------------------------------------------------

/// Watch facts of one entity, by its recorded kind and id.
pub open spec fn watch_of(kind: MediaKind, media_id: i32) -> spec_fn(WatchHistoryRow) -> bool {
    |row: WatchHistoryRow| row.media_kind == kind && row.media_id == media_id
}

/// Watch facts of any episode of one season.
pub open spec fn watch_of_season(c: CatalogM, season_id: i32) -> spec_fn(WatchHistoryRow) -> bool {
    |row: WatchHistoryRow|
        row.media_kind == MediaKind::Episode && match c.episode_row(row.media_id) {
            Some(ep) => ep.season_id == season_id,
            None => false,
        }
}

/// Watch facts of any episode of one show.
pub open spec fn watch_of_show(c: CatalogM, show_id: i32) -> spec_fn(WatchHistoryRow) -> bool {
    |row: WatchHistoryRow|
        row.media_kind == MediaKind::Episode && match c.episode_row(row.media_id) {
            Some(ep) => ep.show_id == show_id,
            None => false,
        }
}

/// Episode detail rows of one season.
pub open spec fn episode_in_season(season_id: i32) -> spec_fn(EpisodeRow) -> bool {
    |ep: EpisodeRow| ep.season_id == season_id
}

/// Episode detail rows of one show.
pub open spec fn episode_in_show(show_id: i32) -> spec_fn(EpisodeRow) -> bool {
    |ep: EpisodeRow| ep.show_id == show_id
}

/// Season detail rows of one show.
pub open spec fn season_in_show(show_id: i32) -> spec_fn(SeasonRow) -> bool {
    |se: SeasonRow| se.show_id == show_id
}

/// Episodes watched at least once.
pub open spec fn episode_watched(c: CatalogM) -> spec_fn(EpisodeRow) -> bool {
    |ep: EpisodeRow| count_matching(c.watch_history, watch_of(MediaKind::Episode, ep.id)) > 0
}

/// The play count of one entity.
pub open spec fn plays_of(c: CatalogM, kind: MediaKind, media_id: i32) -> int {
    count_matching(c.watch_history, watch_of(kind, media_id))
}

/// What one season line of the show page holds.
pub open spec fn season_summary_of(c: CatalogM, se: SeasonRow, s: SeasonSummary) -> bool {
    &&& s.title == se.title
    &&& s.number == se.number
    &&& s.episodes_count == count_matching(c.episodes, episode_in_season(se.id))
    &&& s.episodes_watched == count_matching(
        filter_matching(c.episodes, episode_in_season(se.id)),
        episode_watched(c),
    )
    &&& s.play_count == count_matching(c.watch_history, watch_of_season(c, se.id))
}

/// What one episode line of the season page holds.
pub open spec fn episode_summary_of(c: CatalogM, ep: EpisodeRow, s: EpisodeSummary) -> bool {
    &&& s.id == ep.id
    &&& s.title == ep.title
    &&& s.number == ep.number
    &&& s.overview == ep.overview
    &&& s.play_count == plays_of(c, MediaKind::Episode, ep.id)
}

// ---------------------------------------------------------------------
// Listing order: seasons and episodes appear by ascending number
// ---------------------------------------------------------------------

/// Inserting a season into a list sorted by ascending number.
pub open spec fn insert_season_asc(row: SeasonRow, s: Seq<SeasonRow>) -> Seq<SeasonRow>
    decreases s.len(),
{
    if s.len() <= 0 {
        seq![row]
    } else if row.number < s[0].number {
        seq![row] + s
    } else {
        seq![s[0]] + insert_season_asc(row, s.drop_first())
    }
}

/// Seasons sorted by ascending number.
pub open spec fn sort_seasons(s: Seq<SeasonRow>) -> Seq<SeasonRow>
    decreases s.len(),
{
    if s.len() <= 0 {
        Seq::empty()
    } else {
        insert_season_asc(s.last(), sort_seasons(s.drop_last()))
    }
}

/// Inserting an episode into a list sorted by ascending number.
pub open spec fn insert_episode_asc(row: EpisodeRow, s: Seq<EpisodeRow>) -> Seq<EpisodeRow>
    decreases s.len(),
{
    if s.len() <= 0 {
        seq![row]
    } else if row.number < s[0].number {
        seq![row] + s
    } else {
        seq![s[0]] + insert_episode_asc(row, s.drop_first())
    }
}

/// Episodes sorted by ascending number.
pub open spec fn sort_episodes(s: Seq<EpisodeRow>) -> Seq<EpisodeRow>
    decreases s.len(),
{
    if s.len() <= 0 {
        Seq::empty()
    } else {
        insert_episode_asc(s.last(), sort_episodes(s.drop_last()))
    }
}

proof fn lemma_insert_season_asc_at(s: Seq<SeasonRow>, row: SeasonRow, j: int)
    requires
        0 <= j <= s.len(),
        forall|k: int| 0 <= k < j ==> (#[trigger] s[k]).number <= row.number,
        j < s.len() ==> s[j].number > row.number,
    ensures
        insert_season_asc(row, s) == s.insert(j, row),
    decreases s.len(),
{
    if s.len() == 0 {
        assert(insert_season_asc(row, s) =~= s.insert(0, row));
    } else if j == 0 {
        assert(insert_season_asc(row, s) =~= s.insert(0, row));
    } else {
        assert(s[0].number <= row.number);
        assert forall|k: int| 0 <= k < j - 1 implies (#[trigger] s.drop_first()[k]).number
            <= row.number by {
            assert(s.drop_first()[k] == s[k + 1]);
        }
        if j - 1 < s.drop_first().len() {
            assert(s.drop_first()[j - 1] == s[j]);
        }
        lemma_insert_season_asc_at(s.drop_first(), row, j - 1);
        assert(seq![s[0]] + s.drop_first().insert(j - 1, row) =~= s.insert(j, row));
    }
}

proof fn lemma_insert_episode_asc_at(s: Seq<EpisodeRow>, row: EpisodeRow, j: int)
    requires
        0 <= j <= s.len(),
        forall|k: int| 0 <= k < j ==> (#[trigger] s[k]).number <= row.number,
        j < s.len() ==> s[j].number > row.number,
    ensures
        insert_episode_asc(row, s) == s.insert(j, row),
    decreases s.len(),
{
    if s.len() == 0 {
        assert(insert_episode_asc(row, s) =~= s.insert(0, row));
    } else if j == 0 {
        assert(insert_episode_asc(row, s) =~= s.insert(0, row));
    } else {
        assert(s[0].number <= row.number);
        assert forall|k: int| 0 <= k < j - 1 implies (#[trigger] s.drop_first()[k]).number
            <= row.number by {
            assert(s.drop_first()[k] == s[k + 1]);
        }
        if j - 1 < s.drop_first().len() {
            assert(s.drop_first()[j - 1] == s[j]);
        }
        lemma_insert_episode_asc_at(s.drop_first(), row, j - 1);
        assert(seq![s[0]] + s.drop_first().insert(j - 1, row) =~= s.insert(j, row));
    }
}

/// Inserts a season into a list kept sorted by ascending number.
fn insert_season_sorted(sorted: &mut Vec<SeasonRow>, row: SeasonRow)
    ensures
        final(sorted)@ == insert_season_asc(row, old(sorted)@),
{
    let n = sorted.len();
    let mut j: usize = 0;
    while j < n && sorted[j].number <= row.number
        invariant
            j <= n,
            n == sorted.len(),
            sorted@ == old(sorted)@,
            forall|k: int| 0 <= k < j ==> (#[trigger] sorted@[k]).number <= row.number,
        decreases n - j,
    {
        j += 1;
    }
    proof {
        lemma_insert_season_asc_at(sorted@, row, j as int);
    }
    sorted.insert(j, row);
}

/// Inserts an episode into a list kept sorted by ascending number.
fn insert_episode_sorted(sorted: &mut Vec<EpisodeRow>, row: EpisodeRow)
    ensures
        final(sorted)@ == insert_episode_asc(row, old(sorted)@),
{
    let n = sorted.len();
    let mut j: usize = 0;
    while j < n && sorted[j].number <= row.number
        invariant
            j <= n,
            n == sorted.len(),
            sorted@ == old(sorted)@,
            forall|k: int| 0 <= k < j ==> (#[trigger] sorted@[k]).number <= row.number,
        decreases n - j,
    {
        j += 1;
    }
    proof {
        lemma_insert_episode_asc_at(sorted@, row, j as int);
    }
    sorted.insert(j, row);
}

/// Sorts season rows by ascending number.
#[verifier::loop_isolation(false)]
fn sort_season_rows(rows: Vec<SeasonRow>) -> (r: Vec<SeasonRow>)
    ensures
        r@ == sort_seasons(rows@),
{
    let ghost picked = rows@;
    let mut remaining = rows;
    let mut sorted: Vec<SeasonRow> = Vec::new();
    let n = remaining.len();
    let mut i: usize = 0;
    proof {
        assert(picked.take(0) =~= Seq::<SeasonRow>::empty());
    }
    while i < n
        invariant
            i <= n,
            n == remaining.len(),
            remaining@ == picked,
            sorted@ == sort_seasons(picked.take(i as int)),
        decreases n - i,
    {
        let row = remaining[i].duplicate();
        proof {
            assert(picked.take(i as int + 1).drop_last() =~= picked.take(i as int));
            assert(picked.take(i as int + 1).last() == picked[i as int]);
        }
        insert_season_sorted(&mut sorted, row);
        i += 1;
    }
    proof {
        assert(picked.take(n as int) =~= picked);
    }
    sorted
}

/// Sorts episode rows by ascending number.
#[verifier::loop_isolation(false)]
fn sort_episode_rows(rows: Vec<EpisodeRow>) -> (r: Vec<EpisodeRow>)
    ensures
        r@ == sort_episodes(rows@),
{
    let ghost picked = rows@;
    let mut remaining = rows;
    let mut sorted: Vec<EpisodeRow> = Vec::new();
    let n = remaining.len();
    let mut i: usize = 0;
    proof {
        assert(picked.take(0) =~= Seq::<EpisodeRow>::empty());
    }
    while i < n
        invariant
            i <= n,
            n == remaining.len(),
            remaining@ == picked,
            sorted@ == sort_episodes(picked.take(i as int)),
        decreases n - i,
    {
        let row = remaining[i].duplicate();
        proof {
            assert(picked.take(i as int + 1).drop_last() =~= picked.take(i as int));
            assert(picked.take(i as int + 1).last() == picked[i as int]);
        }
        insert_episode_sorted(&mut sorted, row);
        i += 1;
    }
    proof {
        assert(picked.take(n as int) =~= picked);
    }
    sorted
}

// ---------------------------------------------------------------------
// Counting, executably
// ---------------------------------------------------------------------

/// How often one entity was watched.
fn count_plays(catalog: &Catalog, kind: MediaKind, media_id: i32) -> (r: usize)
    ensures
        r as int == plays_of(catalog@, kind, media_id),
{
    let ghost p = watch_of(kind, media_id);
    proof {
        assert(catalog@.watch_history.skip(0) =~= catalog@.watch_history);
    }
    let n = catalog.watch_history.len();
    let mut i: usize = 0;
    let mut acc: usize = 0;
    while i < n
        invariant
            i <= n,
            acc <= i,
            n == catalog.watch_history.len(),
            p == watch_of(kind, media_id),
            count_matching(catalog@.watch_history, p) == acc + count_matching(
                catalog@.watch_history.skip(i as int),
                p,
            ),
        decreases n - i,
    {
        proof {
            lemma_count_matching_skip_step(catalog@.watch_history, p, i as int);
        }
        let row = catalog.watch_history[i];
        if row.media_kind == kind && row.media_id == media_id {
            acc += 1;
        }
        i += 1;
    }
    proof {
        assert(catalog@.watch_history.skip(n as int) =~= Seq::<WatchHistoryRow>::empty());
    }
    acc
}

/// How often any episode of one season was watched.
fn count_season_plays(catalog: &Catalog, season_id: i32) -> (r: usize)
    ensures
        r as int == count_matching(catalog@.watch_history, watch_of_season(catalog@, season_id)),
{
    let ghost p = watch_of_season(catalog@, season_id);
    proof {
        assert(catalog@.watch_history.skip(0) =~= catalog@.watch_history);
    }
    let n = catalog.watch_history.len();
    let mut i: usize = 0;
    let mut acc: usize = 0;
    while i < n
        invariant
            i <= n,
            acc <= i,
            n == catalog.watch_history.len(),
            p == watch_of_season(catalog@, season_id),
            count_matching(catalog@.watch_history, p) == acc + count_matching(
                catalog@.watch_history.skip(i as int),
                p,
            ),
        decreases n - i,
    {
        proof {
            lemma_count_matching_skip_step(catalog@.watch_history, p, i as int);
        }
        let row = catalog.watch_history[i];
        let hit = row.media_kind == MediaKind::Episode && (match crate::db::find_episode_row(
            catalog,
            row.media_id,
        ) {
            Some(ep) => ep.season_id == season_id,
            None => false,
        });
        if hit {
            acc += 1;
        }
        i += 1;
    }
    proof {
        assert(catalog@.watch_history.skip(n as int) =~= Seq::<WatchHistoryRow>::empty());
    }
    acc
}

/// How often any episode of one show was watched.
fn count_show_plays(catalog: &Catalog, show_id: i32) -> (r: usize)
    ensures
        r as int == count_matching(catalog@.watch_history, watch_of_show(catalog@, show_id)),
{
    let ghost p = watch_of_show(catalog@, show_id);
    proof {
        assert(catalog@.watch_history.skip(0) =~= catalog@.watch_history);
    }
    let n = catalog.watch_history.len();
    let mut i: usize = 0;
    let mut acc: usize = 0;
    while i < n
        invariant
            i <= n,
            acc <= i,
            n == catalog.watch_history.len(),
            p == watch_of_show(catalog@, show_id),
            count_matching(catalog@.watch_history, p) == acc + count_matching(
                catalog@.watch_history.skip(i as int),
                p,
            ),
        decreases n - i,
    {
        proof {
            lemma_count_matching_skip_step(catalog@.watch_history, p, i as int);
        }
        let row = catalog.watch_history[i];
        let hit = row.media_kind == MediaKind::Episode && (match crate::db::find_episode_row(
            catalog,
            row.media_id,
        ) {
            Some(ep) => ep.show_id == show_id,
            None => false,
        });
        if hit {
            acc += 1;
        }
        i += 1;
    }
    proof {
        assert(catalog@.watch_history.skip(n as int) =~= Seq::<WatchHistoryRow>::empty());
    }
    acc
}

/// The episode rows of one season, in catalog order.
fn episodes_of_season(catalog: &Catalog, season_id: i32) -> (r: Vec<EpisodeRow>)
    ensures
        r@ == filter_matching(catalog@.episodes, episode_in_season(season_id)),
{
    let ghost p = episode_in_season(season_id);
    proof {
        assert(catalog@.episodes.skip(0) =~= catalog@.episodes);
    }
    let n = catalog.episodes.len();
    let mut i: usize = 0;
    let mut out: Vec<EpisodeRow> = Vec::new();
    while i < n
        invariant
            i <= n,
            n == catalog.episodes.len(),
            p == episode_in_season(season_id),
            filter_matching(catalog@.episodes, p) == out@ + filter_matching(
                catalog@.episodes.skip(i as int),
                p,
            ),
        decreases n - i,
    {
        proof {
            lemma_filter_matching_skip_step(catalog@.episodes, p, i as int);
        }
        if catalog.episodes[i].season_id == season_id {
            let ghost before = out@;
            out.push(catalog.episodes[i].duplicate());
            proof {
                assert(before + (seq![catalog@.episodes[i as int]] + filter_matching(
                    catalog@.episodes.skip(i as int + 1),
                    p,
                )) =~= out@ + filter_matching(catalog@.episodes.skip(i as int + 1), p));
            }
        }
        i += 1;
    }
    proof {
        assert(catalog@.episodes.skip(n as int) =~= Seq::<EpisodeRow>::empty());
        assert(filter_matching(catalog@.episodes.skip(n as int), p) =~= Seq::<EpisodeRow>::empty());
        assert(out@ + Seq::<EpisodeRow>::empty() =~= out@);
    }
    out
}

/// The season rows of one show, in catalog order.
fn seasons_of_show(catalog: &Catalog, show_id: i32) -> (r: Vec<SeasonRow>)
    ensures
        r@ == filter_matching(catalog@.seasons, season_in_show(show_id)),
{
    let ghost p = season_in_show(show_id);
    proof {
        assert(catalog@.seasons.skip(0) =~= catalog@.seasons);
    }
    let n = catalog.seasons.len();
    let mut i: usize = 0;
    let mut out: Vec<SeasonRow> = Vec::new();
    while i < n
        invariant
            i <= n,
            n == catalog.seasons.len(),
            p == season_in_show(show_id),
            filter_matching(catalog@.seasons, p) == out@ + filter_matching(
                catalog@.seasons.skip(i as int),
                p,
            ),
        decreases n - i,
    {
        proof {
            lemma_filter_matching_skip_step(catalog@.seasons, p, i as int);
        }
        if catalog.seasons[i].show_id == show_id {
            let ghost before = out@;
            out.push(catalog.seasons[i].duplicate());
            proof {
                assert(before + (seq![catalog@.seasons[i as int]] + filter_matching(
                    catalog@.seasons.skip(i as int + 1),
                    p,
                )) =~= out@ + filter_matching(catalog@.seasons.skip(i as int + 1), p));
            }
        }
        i += 1;
    }
    proof {
        assert(catalog@.seasons.skip(n as int) =~= Seq::<SeasonRow>::empty());
        assert(filter_matching(catalog@.seasons.skip(n as int), p) =~= Seq::<SeasonRow>::empty());
        assert(out@ + Seq::<SeasonRow>::empty() =~= out@);
    }
    out
}

/// How many episodes of one season were watched at least once.
fn count_watched_episodes(catalog: &Catalog, eps: &Vec<EpisodeRow>) -> (r: usize)
    ensures
        r as int == count_matching(eps@, episode_watched(catalog@)),
{
    let ghost p = episode_watched(catalog@);
    proof {
        assert(eps@.skip(0) =~= eps@);
    }
    let n = eps.len();
    let mut i: usize = 0;
    let mut acc: usize = 0;
    while i < n
        invariant
            i <= n,
            acc <= i,
            n == eps.len(),
            p == episode_watched(catalog@),
            count_matching(eps@, p) == acc + count_matching(eps@.skip(i as int), p),
        decreases n - i,
    {
        proof {
            lemma_count_matching_skip_step(eps@, p, i as int);
        }
        if count_plays(catalog, MediaKind::Episode, eps[i].id) > 0 {
            acc += 1;
        }
        i += 1;
    }
    proof {
        assert(eps@.skip(n as int) =~= Seq::<EpisodeRow>::empty());
    }
    acc
}

// ---------------------------------------------------------------------
// The pages
// ---------------------------------------------------------------------

/// The movie page, or nothing when no movie has this id.
pub fn movie_page(catalog: &Catalog, movie_id: i32) -> (r: Option<MovieTemplate>)
    ensures
        match r {
            Some(t) => match catalog@.movie_row(movie_id) {
                Some(mr) => {
                    &&& t.id == mr.id
                    &&& t.title == mr.title
                    &&& t.release_year == mr.release_year
                    &&& t.overview == mr.overview
                    &&& t.tagline == mr.tagline
                    &&& t.runtime == mr.runtime
                    &&& t.play_count == plays_of(catalog@, MediaKind::Movie, movie_id)
                },
                None => false,
            },
            None => catalog@.movie_row(movie_id) is None,
        },
{
    match find_movie_row(catalog, movie_id) {
        None => None,
        Some(mr) => {
            let play_count = count_plays(catalog, MediaKind::Movie, movie_id);
            Some(
                MovieTemplate {
                    id: mr.id,
                    title: mr.title,
                    release_year: mr.release_year,
                    play_count,
                    overview: mr.overview,
                    tagline: mr.tagline,
                    runtime: mr.runtime,
                },
            )
        },
    }
}

/// The episode page, addressed by show, season number and episode
/// number; nothing when any link of that chain is missing.
pub fn show_episode_page(catalog: &Catalog, params: GetShowEpisodeParams) -> (r: Option<
    ShowEpisodeTemplate,
>)
    ensures
        match r {
            Some(t) => match (
                catalog@.show_row(params.show_id),
                catalog@.season_by_show_and_number(params.show_id, params.season_number),
            ) {
                (Some(shr), Some(se)) => match catalog@.episode_by_season_and_number(
                    se.id,
                    params.episode_number,
                ) {
                    Some(ep) => {
                        &&& t.show_id == shr.id
                        &&& t.show_title == shr.title
                        &&& t.season_title == se.title
                        &&& t.season_number == se.number
                        &&& t.episode_id == ep.id
                        &&& t.title == ep.title
                        &&& t.episode_number == ep.number
                        &&& t.overview == ep.overview
                        &&& t.play_count == plays_of(catalog@, MediaKind::Episode, ep.id)
                    },
                    None => false,
                },
                _ => false,
            },
            None => {
                ||| catalog@.show_row(params.show_id) is None
                ||| catalog@.season_by_show_and_number(params.show_id, params.season_number)
                    is None
                ||| (catalog@.season_by_show_and_number(params.show_id, params.season_number)
                    matches Some(se) && catalog@.episode_by_season_and_number(
                    se.id,
                    params.episode_number,
                ) is None)
            },
        },
{
    let shr = match find_show_row(catalog, params.show_id) {
        Some(v) => v,
        None => {
            return None;
        },
    };
    let se = match find_season_by_show_and_number(catalog, params.show_id, params.season_number) {
        Some(v) => v,
        None => {
            return None;
        },
    };
    let ep = match find_episode_by_season_and_number(catalog, se.id, params.episode_number) {
        Some(v) => v,
        None => {
            return None;
        },
    };
    let play_count = count_plays(catalog, MediaKind::Episode, ep.id);
    Some(
        ShowEpisodeTemplate {
            episode_id: ep.id,
            title: ep.title,
            episode_number: ep.number,
            show_id: shr.id,
            show_title: shr.title,
            season_title: se.title,
            season_number: se.number,
            overview: ep.overview,
            play_count,
        },
    )
}

/// The season page: the season's episodes, each with its play count,
/// and the totals; nothing when the show or season is missing or the
/// season has no episodes.
#[verifier::loop_isolation(false)]
pub fn show_season_page(catalog: &Catalog, params: GetShowSeasonParams) -> (r: Option<
    ShowSeasonTemplate,
>)
    ensures
        match r {
            Some(t) => match (
                catalog@.show_row(params.show_id),
                catalog@.season_by_show_and_number(params.show_id, params.season_number),
            ) {
                (Some(shr), Some(se)) => {
                    let eps = filter_matching(catalog@.episodes, episode_in_season(se.id));
                    let ordered = sort_episodes(eps);
                    &&& t.show_title == shr.title
                    &&& t.show_id == params.show_id
                    &&& t.title == se.title
                    &&& t.season_number == se.number
                    &&& t.overview == se.overview
                    &&& eps.len() > 0
                    &&& t.episodes@.len() == ordered.len()
                    &&& forall|k: int|
                        0 <= k < ordered.len() ==> episode_summary_of(
                            catalog@,
                            ordered[k],
                            #[trigger] t.episodes@[k],
                        )
                    &&& t.total_episodes_count == eps.len()
                    &&& t.total_episodes_watched == count_matching(eps, episode_watched(catalog@))
                    &&& t.total_play_count == count_matching(
                        catalog@.watch_history,
                        watch_of_season(catalog@, se.id),
                    )
                },
                _ => false,
            },
            None => {
                ||| catalog@.show_row(params.show_id) is None
                ||| catalog@.season_by_show_and_number(params.show_id, params.season_number)
                    is None
                ||| (catalog@.season_by_show_and_number(params.show_id, params.season_number)
                    matches Some(se) && filter_matching(
                    catalog@.episodes,
                    episode_in_season(se.id),
                ).len() == 0)
            },
        },
{
    let shr = match find_show_row(catalog, params.show_id) {
        Some(v) => v,
        None => {
            return None;
        },
    };
    let se = match find_season_by_show_and_number(catalog, params.show_id, params.season_number) {
        Some(v) => v,
        None => {
            return None;
        },
    };
    let eps = episodes_of_season(catalog, se.id);
    if eps.len() == 0 {
        return None;
    }
    let total_episodes_count = eps.len();
    let total_episodes_watched = count_watched_episodes(catalog, &eps);
    let total_play_count = count_season_plays(catalog, se.id);
    let ordered = sort_episode_rows(eps);
    let mut episodes: Vec<EpisodeSummary> = Vec::new();
    let n = ordered.len();
    let mut i: usize = 0;
    while i < n
        invariant
            i <= n,
            n == ordered.len(),
            episodes@.len() == i,
            forall|k: int|
                0 <= k < i ==> episode_summary_of(catalog@, ordered@[k], #[trigger] episodes@[k]),
        decreases n - i,
    {
        let play_count = count_plays(catalog, MediaKind::Episode, ordered[i].id);
        let row = ordered[i].duplicate();
        episodes.push(
            EpisodeSummary {
                id: row.id,
                title: row.title,
                number: row.number,
                overview: row.overview,
                play_count,
            },
        );
        i += 1;
    }
    Some(
        ShowSeasonTemplate {
            title: se.title,
            season_number: se.number,
            show_id: params.show_id,
            show_title: shr.title,
            overview: se.overview,
            total_episodes_count,
            total_episodes_watched,
            total_play_count,
            episodes,
        },
    )
}

/// The show page: the show's seasons, each with its episode and play
/// counts, and the totals; nothing when no show has this id.
#[verifier::loop_isolation(false)]
pub fn show_page(catalog: &Catalog, show_id: i32) -> (r: Option<ShowTemplate>)
    ensures
        match r {
            Some(t) => match catalog@.show_row(show_id) {
                None => false,
                Some(shr) => {
                &&& t.id == shr.id && t.title == shr.title && t.release_year == shr.release_year
                    && t.overview == shr.overview && t.tagline == shr.tagline
                    && t.episode_runtime == shr.episode_runtime
                &&& ({
                    let ordered = sort_seasons(
                        filter_matching(catalog@.seasons, season_in_show(show_id)),
                    );
                    &&& t.seasons@.len() == ordered.len()
                    &&& forall|k: int|
                        0 <= k < ordered.len() ==> season_summary_of(
                            catalog@,
                            ordered[k],
                            #[trigger] t.seasons@[k],
                        )
                })
                &&& t.total_episodes_count == count_matching(
                    catalog@.episodes,
                    episode_in_show(show_id),
                )
                &&& t.total_episodes_watched == count_matching(
                    filter_matching(catalog@.episodes, episode_in_show(show_id)),
                    episode_watched(catalog@),
                )
                &&& t.total_play_count == count_matching(
                    catalog@.watch_history,
                    watch_of_show(catalog@, show_id),
                )
                },
            },
            None => catalog@.show_row(show_id) is None,
        },
{
    let shr = match find_show_row(catalog, show_id) {
        Some(v) => v,
        None => {
            return None;
        },
    };
    // episodes of the show, for the totals
    let ghost pe = episode_in_show(show_id);
    proof {
        assert(catalog@.episodes.skip(0) =~= catalog@.episodes);
    }
    let en = catalog.episodes.len();
    let mut ei: usize = 0;
    let mut show_eps: Vec<EpisodeRow> = Vec::new();
    while ei < en
        invariant
            ei <= en,
            en == catalog.episodes.len(),
            filter_matching(catalog@.episodes, pe) == show_eps@ + filter_matching(
                catalog@.episodes.skip(ei as int),
                pe,
            ),
        decreases en - ei,
    {
        proof {
            lemma_filter_matching_skip_step(catalog@.episodes, pe, ei as int);
        }
        if catalog.episodes[ei].show_id == show_id {
            let ghost before = show_eps@;
            show_eps.push(catalog.episodes[ei].duplicate());
            proof {
                assert(before + (seq![catalog@.episodes[ei as int]] + filter_matching(
                    catalog@.episodes.skip(ei as int + 1),
                    pe,
                )) =~= show_eps@ + filter_matching(catalog@.episodes.skip(ei as int + 1), pe));
            }
        }
        ei += 1;
    }
    proof {
        assert(catalog@.episodes.skip(en as int) =~= Seq::<EpisodeRow>::empty());
        assert(filter_matching(catalog@.episodes.skip(en as int), pe) =~= Seq::<
            EpisodeRow,
        >::empty());
        assert(show_eps@ + Seq::<EpisodeRow>::empty() =~= show_eps@);
    }
    let total_episodes_count = show_eps.len();
    proof {
        lemma_filter_matching_count(catalog@.episodes, pe);
    }
    let total_episodes_watched = count_watched_episodes(catalog, &show_eps);
    let total_play_count = count_show_plays(catalog, show_id);

    // one line per season, by ascending number
    let ses = sort_season_rows(seasons_of_show(catalog, show_id));
    let mut seasons: Vec<SeasonSummary> = Vec::new();
    let sn = ses.len();
    let mut si: usize = 0;
    while si < sn
        invariant
            si <= sn,
            sn == ses.len(),
            seasons@.len() == si,
            forall|k: int|
                0 <= k < si ==> season_summary_of(catalog@, ses@[k], #[trigger] seasons@[k]),
        decreases sn - si,
    {
        let se_eps = episodes_of_season(catalog, ses[si].id);
        let episodes_count = se_eps.len();
        let episodes_watched = count_watched_episodes(catalog, &se_eps);
        let play_count = count_season_plays(catalog, ses[si].id);
        let row = ses[si].duplicate();
        proof {
            lemma_filter_matching_count(catalog@.episodes, episode_in_season(ses@[si as int].id));
        }
        seasons.push(
            SeasonSummary {
                title: row.title,
                number: row.number,
                episodes_count,
                episodes_watched,
                play_count,
            },
        );
        si += 1;
    }
    Some(
        ShowTemplate {
            id: shr.id,
            title: shr.title,
            release_year: shr.release_year,
            overview: shr.overview,
            tagline: shr.tagline,
            episode_runtime: shr.episode_runtime,
            total_episodes_count,
            total_episodes_watched,
            total_play_count,
            seasons,
        },
    )
}

} // verus!
