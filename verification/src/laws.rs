//! The laws of the catalog, stated and proved once and for all states:
//! what creation promises to lookups, how the id namespaces behave, and
//! that reconciliation is idempotent.

use vstd::prelude::*;

use crate::db::create_media_m;
use crate::db::ext_with_tmdb;
use crate::db::ext_with_trakt;
use crate::db::lemma_media_by_id_props;
use crate::db::CatalogM;
use crate::db::MediaKind;
use crate::scan::lemma_find_first_characterizes;

verus! {

/// Creating an entity of any kind and then looking its id up — with or
/// without the kind filter — returns an entity with the same id and the
/// same kind.
pub proof fn lemma_create_then_get(c: CatalogM, kind: MediaKind)
    requires
        c.wf(),
    ensures
        create_media_m(c, kind) matches Ok(p) ==> {
            let (c1, m) = p;
            &&& m.kind == kind
            &&& c1.media_by_id_kind(m.id, None) == Some(m)
            &&& c1.media_by_id_kind(m.id, Some(kind)) == Some(m)
        },
{
    if c.next_id < i32::MAX {
        crate::db::lemma_create_media_wf(c, kind);
    }
}

/// The tracker-id namespace is one flat, global space: a well-formed
/// catalog never holds two different mapping rows carrying the same
/// tracker id, so a tracker id can never lead to two different
/// entities.
pub proof fn lemma_trakt_id_globally_unique(c: CatalogM, trakt_id: i32, i: int, j: int)
    requires
        c.wf(),
        0 <= i < c.external_ids.len(),
        0 <= j < c.external_ids.len(),
        c.external_ids[i].ids.trakt_id == Some(trakt_id),
        c.external_ids[j].ids.trakt_id == Some(trakt_id),
    ensures
        i == j,
        c.media_by_trakt(trakt_id) matches Some(m) && m.id == c.external_ids[i].media_id,
{
    let p = ext_with_trakt(trakt_id);
    assert(p(c.external_ids[i]));
    lemma_find_first_characterizes(c.external_ids, p);
    match c.ext_row_by_trakt(trakt_id) {
        Some(row) => {
            let k = choose|k: int|
                0 <= k < c.external_ids.len() && #[trigger] c.external_ids[k] == row;
            assert(row.media_id == c.external_ids[i].media_id);
            assert(c.media_by_id(row.media_id) is Some);
            lemma_media_by_id_props(c, row.media_id);
        },
        None => {
            assert(false);
        },
    }
}

/// The metadata-service namespace is per kind: when the same numeric id
/// is mapped both as a movie and as a show, the two lookups return two
/// distinct entities, of their respective kinds.
pub proof fn lemma_tmdb_namespaces_independent(c: CatalogM, tmdb_id: i32)
    requires
        c.wf(),
        c.media_by_tmdb(tmdb_id, MediaKind::Movie) is Some,
        c.media_by_tmdb(tmdb_id, MediaKind::Show) is Some,
    ensures
        ({
            let movie = c.media_by_tmdb(tmdb_id, MediaKind::Movie)->Some_0;
            let show = c.media_by_tmdb(tmdb_id, MediaKind::Show)->Some_0;
            &&& movie.kind == MediaKind::Movie
            &&& show.kind == MediaKind::Show
            &&& movie != show
            &&& movie.id != show.id
        }),
{
    lemma_tmdb_lookup_kind(c, tmdb_id, MediaKind::Movie);
    lemma_tmdb_lookup_kind(c, tmdb_id, MediaKind::Show);
    let movie = c.media_by_tmdb(tmdb_id, MediaKind::Movie)->Some_0;
    let show = c.media_by_tmdb(tmdb_id, MediaKind::Show)->Some_0;
    lemma_media_by_id_props(c, c.ext_row_by_tmdb(tmdb_id, MediaKind::Movie)->Some_0.media_id);
    lemma_media_by_id_props(c, c.ext_row_by_tmdb(tmdb_id, MediaKind::Show)->Some_0.media_id);
}

/// A hit of the kind-scoped metadata-service lookup has the kind it was
/// scoped to.
pub proof fn lemma_tmdb_lookup_kind(c: CatalogM, tmdb_id: i32, kind: MediaKind)
    requires
        c.wf(),
        c.media_by_tmdb(tmdb_id, kind) is Some,
    ensures
        c.media_by_tmdb(tmdb_id, kind)->Some_0.kind == kind,
        c.media_by_tmdb(tmdb_id, kind)->Some_0.id == c.ext_row_by_tmdb(
            tmdb_id,
            kind,
        )->Some_0.media_id,
{
    let p = ext_with_tmdb(c, tmdb_id, kind);
    lemma_find_first_characterizes(c.external_ids, p);
    match c.ext_row_by_tmdb(tmdb_id, kind) {
        Some(row) => {
            assert(p(row));
            lemma_media_by_id_props(c, row.media_id);
        },
        None => {},
    }
}

} // verus!
