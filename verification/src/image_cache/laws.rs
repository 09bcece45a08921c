//! What follows from the store's contracts when its operations are combined.
//!
//! Every statement is about the store's view, so it holds of each store that
//! is in order, whatever the file system and the clock did.

use crate::cache::{
    action_for,
    applies,
    inserts_each,
    removes_each,
    CacheTrait,
    WatchAction,
    WatchEvent,
};
use crate::endpoints::api::schema::ImageJsonView;
use crate::image_cache::cache::{Cache, CacheErrorView, FetchView};
use crate::image_cache::model::{
    lemma_inserted_valid,
    lemma_key_of,
    lemma_removed_valid,
    lemma_scope_kept,
    lemma_stored_valid,
    lemma_swept_valid,
    listed,
    CacheView,
};
use crate::image_cache::image::{elapsed, probed, FileProbe, ImageView, RecordError};
use vstd::prelude::*;

verus! {

/// A probed file that lies below a root, whose leading bytes name a format
/// and whose creation time is known, is admitted. Once it is tracked under
/// its key, a request for the key asks for its file to be loaded; once the
/// load has succeeded, the record holds exactly the bytes that were read, and
/// requests hand them out for as long as they are fresh.
pub proof fn law_insert_then_get(
    c: CacheView,
    probe: FileProbe,
    key: Seq<char>,
    now: i64,
    data: Seq<u8>,
    compressed: Seq<u8>,
    loaded: i64,
    asked: i64,
)
    requires
        c.valid(),
        probe.canonical is Some,
        probe.is_file == Some(true),
        c.in_scope(probe.canonical->0@),
        probed(probe, now) is Ok,
        !c.records.contains_key(key),
    ensures
        c.admission(probe, now) == Ok::<ImageView, CacheErrorView>(probed(probe, now)->Ok_0),
        ({
            let image = probed(probe, now)->Ok_0;
            let held = c.inserted(key, image);
            let outcome = Ok::<(Seq<u8>, Seq<u8>), RecordError>((data, compressed));
            let resolved = held.stored(key, outcome, loaded);
            &&& held.valid()
            &&& held.records.contains_key(key)
            &&& held.fetched(key, asked) == Ok::<FetchView, CacheErrorView>(
                FetchView::Load { key: key, path: probe.canonical->0@ },
            )
            &&& held.store_answer(key, outcome, loaded) == Ok::<ImageView, CacheErrorView>(
                resolved.records[key],
            )
            &&& resolved.valid()
            &&& resolved.records[key].data == data
            &&& resolved.records[key].compressed_data == compressed
            &&& resolved.records[key].path == probe.canonical->0@
            &&& (data.len() > 0 && elapsed(loaded, asked) < c.max_age ==> resolved.fetched(
                key,
                asked,
            ) == Ok::<FetchView, CacheErrorView>(FetchView::Ready(resolved.records[key])))
        }),
{
    let image = probed(probe, now)->Ok_0;
    let held = c.inserted(key, image);
    lemma_inserted_valid(c, key, image);
    lemma_stored_valid(
        held,
        key,
        Ok::<(Seq<u8>, Seq<u8>), RecordError>((data, compressed)),
        loaded,
    );
}

/// A probe of something that is not a regular file is refused as `NotAFile`,
/// wherever it lies; a probe of a file below no root is refused as
/// `OutOfScope`.
pub proof fn law_insert_refusals(c: CacheView, probe: FileProbe, now: i64)
    requires
        probe.canonical is Some,
        probe.is_file is Some,
    ensures
        !probe.is_file->0 ==> c.admission(probe, now) == Err::<ImageView, CacheErrorView>(
            CacheErrorView::NotAFile,
        ),
        probe.is_file->0 && !c.in_scope(probe.canonical->0@) ==> c.admission(probe, now) == Err::<
            ImageView,
            CacheErrorView,
        >(CacheErrorView::OutOfScope),
{
}

/// Removing a path that is not tracked changes nothing. Removing a tracked
/// path drops the record under its key and no other, and a request for that
/// key is answered with `NotFound` from then on.
pub proof fn law_remove(c: CacheView, path: Seq<char>, other: Seq<char>, now: i64)
    requires
        c.valid(),
    ensures
        !c.tracks(path) ==> c.removed(path) == c,
        c.tracks(path) ==> ({
            let key = c.key_of(path);
            let after = c.removed(path);
            &&& c.records.contains_key(key)
            &&& c.records[key].path == path
            &&& after.valid()
            &&& !after.tracks(path)
            &&& !after.records.contains_key(key)
            &&& after.fetched(key, now) == Err::<FetchView, CacheErrorView>(
                CacheErrorView::NotFound,
            )
            &&& (other != key ==> after.records.contains_key(other) == c.records.contains_key(
                other,
            ))
            &&& (other != key && c.records.contains_key(other) ==> after.records[other]
                == c.records[other])
        }),
{
    lemma_removed_valid(c, path);
}

/// A record that was resolved more than `max_age` before a sweep holds no
/// file bytes after it, and where it held some, no compressed bytes either. The next request for its key asks for the file to be
/// loaded, and a successful load puts the bytes back and stamps the record
/// with the time of the load.
pub proof fn law_expiry(
    c: CacheView,
    key: Seq<char>,
    swept_at: i64,
    asked: i64,
    data: Seq<u8>,
    compressed: Seq<u8>,
    loaded: i64,
)
    requires
        c.valid(),
        c.records.contains_key(key),
        elapsed(c.records[key].cache_time, swept_at) > c.max_age,
    ensures
        ({
            let swept = c.swept(swept_at);
            let outcome = Ok::<(Seq<u8>, Seq<u8>), RecordError>((data, compressed));
            let again = swept.stored(key, outcome, loaded);
            &&& swept.valid()
            &&& swept.records.contains_key(key)
            &&& swept.records[key].data.len() == 0
            &&& (c.records[key].data.len() > 0 ==> swept.records[key]
                == c.records[key].cleared())
            &&& swept.fetched(key, asked) == Ok::<FetchView, CacheErrorView>(
                FetchView::Load { key: key, path: c.records[key].path },
            )
            &&& again.records[key].data == data
            &&& again.records[key].compressed_data == compressed
            &&& again.records[key].cache_time == loaded
        }),
{
    lemma_swept_valid(c, swept_at);
}

/// A sweep removes no record and changes none that has not expired.
pub proof fn law_sweep_keeps_records(c: CacheView, key: Seq<char>, now: i64)
    requires
        c.valid(),
    ensures
        c.swept(now).records.contains_key(key) == c.records.contains_key(key),
        c.records.contains_key(key) && !c.records[key].is_expired(now, c.max_age) ==> c.swept(
            now,
        ).records[key] == c.records[key],
        c.records.contains_key(key) ==> c.swept(now).records[key].path == c.records[key].path
            && c.swept(now).records[key].image_age == c.records[key].image_age,
{
}

/// The key that is handed out as the newest is in use, and no record of the
/// store was created after its record; none is handed out exactly when the
/// store is empty. Asking changes no record.
pub proof fn law_newest(c: CacheView, after: CacheView, r: Option<Seq<char>>, other: Seq<char>)
    requires
        c.valid(),
        c.answers_newest(after, r),
    ensures
        after.valid(),
        after.records == c.records,
        r is None <==> c.records.dom() =~= Set::<Seq<char>>::empty(),
        r matches Some(k) ==> c.records.contains_key(k) && (c.records.contains_key(other)
            ==> c.records[other].image_age <= c.records[k].image_age),
{
    if c.records.dom().len() == 0 {
        assert(c.records.dom() =~= Set::empty());
    }
    if let Some(k) = r {
        assert(c.is_newest(k));
        assert(after.is_newest(k));
        assert forall|p: Seq<char>| #[trigger] after.records.contains_key(p) implies after.in_scope(
            after.records[p].path,
        ) by {
            lemma_scope_kept(c, after, c.records[p].path);
        }
    }
}

/// After a record is put in, nothing is remembered as newest, so the next
/// answer is found among all records that are tracked then: a record that
/// was created after every other is the one that is handed out.
pub proof fn law_newest_after_insert(
    c: CacheView,
    key: Seq<char>,
    image: ImageView,
    after: CacheView,
    r: Option<Seq<char>>,
)
    requires
        c.valid(),
        !c.records.contains_key(key),
        c.in_scope(image.path),
        forall|k: Seq<char>| #[trigger]
            c.records.contains_key(k) ==> c.records[k].image_age < image.image_age,
        c.inserted(key, image).answers_newest(after, r),
    ensures
        r == Some(key),
{
    let d = c.inserted(key, image);
    lemma_inserted_valid(c, key, image);
    assert(d.records.contains_key(key));
    assert(d.records.dom().len() > 0) by {
        if d.records.dom().len() == 0 {
            assert(d.records.dom() =~= Set::empty());
            assert(d.records.dom().contains(key));
        }
    }
    let k = r->0;
    assert(d.is_newest(k));
    if k != key {
        assert(c.removed(image.path).records.contains_key(k));
        assert(c.records.contains_key(k));
    }
}

/// A listing has one entry for each tracked key, no address twice, and no
/// entry before one of a later creation time. Where no two tracked records
/// were created at one time, each entry is strictly later than the next.
pub proof fn law_listing(c: CacheView, prefix: Seq<char>, out: Seq<ImageJsonView>, i: int, j: int)
    requires
        c.valid(),
        c.lists(prefix, out),
        0 <= i < j < out.len(),
    ensures
        out.len() == c.records.dom().len(),
        out[i].date >= out[j].date,
        out[i].url != out[j].url,
        (forall|a: Seq<char>, b: Seq<char>|
            #![trigger c.records.contains_key(a), c.records.contains_key(b)]
            c.records.contains_key(a) && c.records.contains_key(b) && c.records[a].image_age
                == c.records[b].image_age ==> a == b) ==> out[i].date > out[j].date,
{
    if (forall|a: Seq<char>, b: Seq<char>|
        #![trigger c.records.contains_key(a), c.records.contains_key(b)]
        c.records.contains_key(a) && c.records.contains_key(b) && c.records[a].image_age
            == c.records[b].image_age ==> a == b) && out[i].date == out[j].date {
        assert(c.shows(prefix, out[i]));
        assert(c.shows(prefix, out[j]));
        let a = choose|k: Seq<char>| #[trigger]
            c.records.contains_key(k) && out[i] == listed(prefix, k, c.records[k]);
        let b = choose|k: Seq<char>| #[trigger]
            c.records.contains_key(k) && out[j] == listed(prefix, k, c.records[k]);
        assert(c.records.contains_key(a) && c.records.contains_key(b));
        assert(a == b);
    }
}

/// Every tracked record has its entry in a listing, at its address below the
/// prefix and with its creation time, and a listing shows nothing else.
pub proof fn law_listing_complete(
    c: CacheView,
    prefix: Seq<char>,
    out: Seq<ImageJsonView>,
    key: Seq<char>,
    i: int,
)
    requires
        c.lists(prefix, out),
    ensures
        c.records.contains_key(key) ==> out.contains(
            ImageJsonView { date: c.records[key].image_age, url: prefix + seq!['/'] + key },
        ),
        0 <= i < out.len() ==> exists|k: Seq<char>| #[trigger]
            c.records.contains_key(k) && out[i].date == c.records[k].image_age && out[i].url
                == prefix + seq!['/'] + k,
{
    if 0 <= i < out.len() {
        assert(c.shows(prefix, out[i]));
        let k = choose|k: Seq<char>| #[trigger]
            c.records.contains_key(k) && out[i] == listed(prefix, k, c.records[k]);
        assert(c.records.contains_key(k) && out[i].date == c.records[k].image_age && out[i].url
            == prefix + seq!['/'] + k);
    }
}

/// A record that could not be resolved stays as it was, and so does every
/// other record: the store answers for the others as before.
pub proof fn law_failed_resolve(
    c: CacheView,
    key: Seq<char>,
    cause: RecordError,
    now: i64,
)
    requires
        c.valid(),
    ensures
        c.stored(key, Err::<(Seq<u8>, Seq<u8>), RecordError>(cause), now) == c,
        c.records.contains_key(key) ==> c.store_answer(
            key,
            Err::<(Seq<u8>, Seq<u8>), RecordError>(cause),
            now,
        ) == Err::<ImageView, CacheErrorView>(
            CacheErrorView::ResolveFailed { key: key, cause: cause },
        ),
{
}

/// Each path is tracked under one key, and a record's key is the key of its
/// path.
pub proof fn law_one_record_per_path(c: CacheView, a: Seq<char>, b: Seq<char>)
    requires
        c.valid(),
        c.records.contains_key(a),
        c.records.contains_key(b),
        c.records[a].path == c.records[b].path,
    ensures
        a == b,
        c.key_of(c.records[a].path) == a,
{
    lemma_key_of(c, a);
}

/// The path under which a probe's file is tracked once it is admitted.
pub open spec fn path_of(probe: FileProbe) -> Seq<char> {
    probe.canonical->0@
}

/// The paths that the probes of a notification were reported with.
pub open spec fn reported(probes: Seq<FileProbe>) -> Seq<Seq<char>> {
    probes.map_values(|p: FileProbe| p.path@)
}

/// Whether a probe is admitted depends on the roots alone, not on what is
/// tracked.
pub proof fn law_admission_by_roots(c: CacheView, d: CacheView, probe: FileProbe, now: i64)
    requires
        c.roots == d.roots,
    ensures
        c.admission(probe, now) == d.admission(probe, now),
        c.admits(probe) == d.admits(probe),
{
    if probe.canonical is Some {
        let path = probe.canonical->0@;
        if c.in_scope(path) {
            lemma_scope_kept(c, d, path);
        }
        if d.in_scope(path) {
            lemma_scope_kept(d, c, path);
        }
    }
}

/// Offering a probe to a valid store leaves it valid, with its roots and its
/// time-to-live. An admitted probe is tracked afterwards as an unresolved
/// record of its path, format and creation time. Every record of another
/// path stays under its key as it was, and nothing else appears.
pub proof fn law_offer(c: CacheView, probe: FileProbe, after: CacheView, other: Seq<char>)
    requires
        c.valid(),
        c.offers(probe, after),
    ensures
        after.valid(),
        after.roots == c.roots,
        after.max_age == c.max_age,
        !c.admits(probe) ==> after == c,
        c.admits(probe) ==> ({
            let key = after.key_of(path_of(probe));
            &&& after.tracks(path_of(probe))
            &&& after.records.contains_key(key)
            &&& !c.records.contains_key(key)
            &&& exists|now: i64| #[trigger] probed(probe, now) == Ok::<ImageView, RecordError>(
                after.records[key],
            )
        }),
        c.records.contains_key(other) && !(c.admits(probe) && c.records[other].path == path_of(
            probe,
        )) ==> after.records.contains_key(other) && after.records[other] == c.records[other],
        after.records.contains_key(other) && !(c.admits(probe) && after.records[other].path
            == path_of(probe)) ==> c.records.contains_key(other),
{
    if c.admits(probe) {
        let (key, now) = choose|key: Seq<char>, now: i64| c.puts(probe, key, now, after);
        let image = c.admission(probe, now)->Ok_0;
        assert(image.path == path_of(probe));
        assert(probed(probe, now) == Ok::<ImageView, RecordError>(image));
        lemma_inserted_valid(c, key, image);
        lemma_removed_valid(c, image.path);
        assert(after.records.contains_key(key) && after.records[key].path == path_of(probe));
        lemma_key_of(after, key);
        if c.records.contains_key(other) && c.records[other].path != path_of(probe) {
            if c.tracks(image.path) {
                let gone = c.key_of(image.path);
                assert(c.records.contains_key(gone) && c.records[gone].path == image.path);
            }
        }
    }
}

/// Offering a probe changes which paths are tracked by at most the probe's
/// own path.
pub proof fn law_offer_paths(c: CacheView, probe: FileProbe, after: CacheView, path: Seq<char>)
    requires
        c.valid(),
        c.offers(probe, after),
    ensures
        c.admits(probe) && path == path_of(probe) ==> after.tracks(path),
        !(c.admits(probe) && path == path_of(probe)) ==> after.tracks(path) == c.tracks(path),
{
    if c.admits(probe) && path == path_of(probe) {
        law_offer(c, probe, after, path);
    } else {
        if c.tracks(path) {
            let k = c.key_of(path);
            assert(c.records.contains_key(k) && c.records[k].path == path);
            law_offer(c, probe, after, k);
            assert(after.records.contains_key(k) && after.records[k].path == path);
        }
        if after.tracks(path) {
            let k = after.key_of(path);
            assert(after.records.contains_key(k) && after.records[k].path == path);
            law_offer(c, probe, after, k);
            assert(c.records.contains_key(k) && c.records[k].path == path);
        }
    }
}

/// A store that grew by probes is valid and has the roots and the
/// time-to-live it had.
pub proof fn law_growth_valid(c: CacheView, probes: Seq<FileProbe>, after: CacheView)
    requires
        c.valid(),
        c.grows_to(probes, after),
    ensures
        after.valid(),
        after.roots == c.roots,
        after.max_age == c.max_age,
    decreases probes.len(),
{
    if probes.len() > 0 {
        let mid = choose|mid: CacheView|
            c.grows_to(probes.drop_last(), mid) && #[trigger] mid.offers(probes.last(), after);
        law_growth_valid(c, probes.drop_last(), mid);
        law_offer(mid, probes.last(), after, Seq::empty());
    }
}

/// After a store grew by probes, the path of every admitted probe is
/// tracked. This is what a notification of created files, and the scan at
/// startup, leave behind.
pub proof fn law_growth_tracks(c: CacheView, probes: Seq<FileProbe>, after: CacheView, i: int)
    requires
        c.valid(),
        c.grows_to(probes, after),
        0 <= i < probes.len(),
        c.admits(probes[i]),
    ensures
        after.tracks(path_of(probes[i])),
    decreases probes.len(),
{
    let mid = choose|mid: CacheView|
        c.grows_to(probes.drop_last(), mid) && #[trigger] mid.offers(probes.last(), after);
    law_growth_valid(c, probes.drop_last(), mid);
    law_admission_by_roots(c, mid, probes.last(), 0);
    if i < probes.len() - 1 {
        law_growth_tracks(c, probes.drop_last(), mid, i);
        assert(probes.drop_last()[i] == probes[i]);
    }
    law_offer_paths(mid, probes.last(), after, path_of(probes[i]));
}

/// After a store grew by probes, every tracked path was tracked before or is
/// the path of an admitted probe.
pub proof fn law_growth_only(
    c: CacheView,
    probes: Seq<FileProbe>,
    after: CacheView,
    path: Seq<char>,
)
    requires
        c.valid(),
        c.grows_to(probes, after),
        after.tracks(path),
    ensures
        c.tracks(path) || exists|i: int|
            0 <= i < probes.len() && c.admits(#[trigger] probes[i]) && path_of(probes[i]) == path,
    decreases probes.len(),
{
    if probes.len() > 0 {
        let mid = choose|mid: CacheView|
            c.grows_to(probes.drop_last(), mid) && #[trigger] mid.offers(probes.last(), after);
        law_growth_valid(c, probes.drop_last(), mid);
        law_admission_by_roots(c, mid, probes.last(), 0);
        law_offer_paths(mid, probes.last(), after, path);
        if c.admits(probes.last()) && path == path_of(probes.last()) {
            assert(c.admits(probes[probes.len() - 1]));
        } else {
            law_growth_only(c, probes.drop_last(), mid, path);
            if !c.tracks(path) {
                let i = choose|i: int|
                    0 <= i < probes.drop_last().len() && c.admits(
                        #[trigger] probes.drop_last()[i],
                    ) && path_of(probes.drop_last()[i]) == path;
                assert(probes.drop_last()[i] == probes[i]);
            }
        }
    }
}

/// After a store grew by probes, a record whose path is the path of no
/// admitted probe is still there, under its key and as it was.
pub proof fn law_growth_keeps(
    c: CacheView,
    probes: Seq<FileProbe>,
    after: CacheView,
    key: Seq<char>,
)
    requires
        c.valid(),
        c.grows_to(probes, after),
        c.records.contains_key(key),
        forall|i: int|
            0 <= i < probes.len() && c.admits(#[trigger] probes[i]) ==> path_of(probes[i])
                != c.records[key].path,
    ensures
        after.records.contains_key(key),
        after.records[key] == c.records[key],
    decreases probes.len(),
{
    if probes.len() > 0 {
        let mid = choose|mid: CacheView|
            c.grows_to(probes.drop_last(), mid) && #[trigger] mid.offers(probes.last(), after);
        law_growth_valid(c, probes.drop_last(), mid);
        law_admission_by_roots(c, mid, probes.last(), 0);
        assert forall|i: int|
            0 <= i < probes.drop_last().len() && c.admits(
                #[trigger] probes.drop_last()[i],
            ) implies path_of(probes.drop_last()[i]) != c.records[key].path by {
            assert(probes.drop_last()[i] == probes[i]);
        }
        law_growth_keeps(c, probes.drop_last(), mid, key);
        assert(probes.last() == probes[probes.len() - 1]);
        law_offer(mid, probes.last(), after, key);
    }
}

/// Removing a path never makes another path tracked, and leaves every record
/// of another path as it was.
pub proof fn law_removed_paths(c: CacheView, gone: Seq<char>, path: Seq<char>, key: Seq<char>)
    requires
        c.valid(),
    ensures
        c.removed(gone).tracks(path) <==> c.tracks(path) && path != gone,
        c.records.contains_key(key) && c.records[key].path != gone ==> c.removed(
            gone,
        ).records.contains_key(key) && c.removed(gone).records[key] == c.records[key],
        c.removed(gone).records.contains_key(key) ==> c.records.contains_key(key)
            && c.records[key].path != gone,
{
    let d = c.removed(gone);
    lemma_removed_valid(c, gone);
    if c.tracks(gone) {
        let g = c.key_of(gone);
        assert(c.records.contains_key(g) && c.records[g].path == gone);
    }
    if d.tracks(path) {
        let k = d.key_of(path);
        assert(d.records.contains_key(k) && d.records[k].path == path);
        assert(c.records.contains_key(k) && c.records[k].path == path);
    }
    if c.tracks(path) && path != gone {
        let k = c.key_of(path);
        assert(c.records.contains_key(k) && c.records[k].path == path);
        assert(d.records.contains_key(k) && d.records[k].path == path);
    }
    if d.records.contains_key(key) && c.records[key].path == gone {
        lemma_key_of(c, key);
    }
}

/// A store from which paths were removed is valid and has the roots and the
/// time-to-live it had.
pub proof fn law_removal_valid(c: CacheView, paths: Seq<Seq<char>>)
    requires
        c.valid(),
    ensures
        c.removed_all(paths).valid(),
        c.removed_all(paths).roots == c.roots,
        c.removed_all(paths).max_age == c.max_age,
    decreases paths.len(),
{
    if paths.len() > 0 {
        law_removal_valid(c, paths.drop_last());
        lemma_removed_valid(c.removed_all(paths.drop_last()), paths.last());
    }
}

/// After paths were removed from a store, a path is tracked exactly if it
/// was tracked and is none of them; and the records that are left are as
/// they were. This is what a notification of removed files leaves behind.
pub proof fn law_removal(c: CacheView, paths: Seq<Seq<char>>, path: Seq<char>, key: Seq<char>)
    requires
        c.valid(),
    ensures
        c.removed_all(paths).tracks(path) <==> c.tracks(path) && !paths.contains(path),
        c.removed_all(paths).records.contains_key(key) <==> c.records.contains_key(key)
            && !paths.contains(c.records[key].path),
        c.removed_all(paths).records.contains_key(key) ==> c.removed_all(paths).records[key]
            == c.records[key],
    decreases paths.len(),
{
    if paths.len() > 0 {
        let front = paths.drop_last();
        let mid = c.removed_all(front);
        law_removal_valid(c, front);
        law_removal(c, front, path, key);
        law_removed_paths(mid, paths.last(), path, key);
        assert(paths.contains(path) <==> front.contains(path) || path == paths.last()) by {
            if front.contains(path) {
                let i = choose|i: int| 0 <= i < front.len() && front[i] == path;
                assert(paths[i] == path);
            }
            if path == paths.last() {
                assert(paths[paths.len() - 1] == path);
            }
            if paths.contains(path) {
                let i = choose|i: int| 0 <= i < paths.len() && paths[i] == path;
                if i < front.len() {
                    assert(front[i] == path);
                }
            }
        }
        if c.records.contains_key(key) {
            let at = c.records[key].path;
            assert(paths.contains(at) <==> front.contains(at) || at == paths.last()) by {
                if front.contains(at) {
                    let i = choose|i: int| 0 <= i < front.len() && front[i] == at;
                    assert(paths[i] == at);
                }
                if at == paths.last() {
                    assert(paths[paths.len() - 1] == at);
                }
                if paths.contains(at) {
                    let i = choose|i: int| 0 <= i < paths.len() && paths[i] == at;
                    if i < front.len() {
                        assert(front[i] == at);
                    }
                }
            }
        }
    }
}

/// Applied to a store, a notification of created or moved-in files makes the
/// store grow by its probes; one of removed or moved-away files removes the
/// paths it reports; any other leaves the store's view as it was.
pub proof fn law_watcher(before: Cache, event: WatchEvent<FileProbe>, after: Cache)
    requires
        applies(before, event, after),
    ensures
        match action_for(event.kind) {
            WatchAction::Insert => before@.grows_to(event.paths@, after@),
            WatchAction::Remove => after@ == before@.removed_all(reported(event.paths@)),
            WatchAction::Ignore => after@ == before@,
        },
{
    match action_for(event.kind) {
        WatchAction::Insert => {
            lemma_inserts_grow(before, event.paths@, after);
        },
        WatchAction::Remove => {
            lemma_removes_shrink(before, event.paths@, after);
        },
        WatchAction::Ignore => {},
    }
}

/// Offering data sources to a store one by one makes its view grow by them.
proof fn lemma_inserts_grow(before: Cache, data: Seq<FileProbe>, after: Cache)
    requires
        inserts_each(before, data, after),
    ensures
        before@.grows_to(data, after@),
    decreases data.len(),
{
    if data.len() > 0 {
        let mid = choose|mid: Cache|
            inserts_each(before, data.drop_last(), mid) && #[trigger] mid.inserts(
                &data.last(),
                &after,
            );
        lemma_inserts_grow(before, data.drop_last(), mid);
        assert(before@.grows_to(data.drop_last(), mid@) && mid@.offers(data.last(), after@));
    }
}

/// Removing data sources from a store one by one removes their reported
/// paths from its view.
proof fn lemma_removes_shrink(before: Cache, data: Seq<FileProbe>, after: Cache)
    requires
        removes_each(before, data, after),
    ensures
        after@ == before@.removed_all(reported(data)),
    decreases data.len(),
{
    if data.len() > 0 {
        let mid = choose|mid: Cache|
            removes_each(before, data.drop_last(), mid) && #[trigger] mid.removes(
                &data.last(),
                &after,
            );
        lemma_removes_shrink(before, data.drop_last(), mid);
        assert(reported(data).drop_last() =~= reported(data.drop_last()));
        assert(reported(data).last() == data.last().path@);
    }
}

} // verus!
