//! The store as a mathematical value: its roots, its records by key, its
//! time-to-live and the key it remembers as newest; what each operation makes
//! of such a value; and what keeps it valid.

use crate::endpoints::api::schema::{ImageJson, ImageJsonView};
use crate::image_cache::cache::{CacheError, CacheErrorView, Fetch, FetchView};
use crate::image_cache::image::{elapsed, probed, FileProbe, Image, ImageView, RecordError};
use vstd::prelude::*;
use vstd::utf8::encode_utf8;

verus! {

/// The store's error for a record that could not be created.
pub open spec fn rejection(e: RecordError) -> CacheErrorView {
    match e {
        RecordError::UnsupportedFormat => CacheErrorView::UnsupportedFormat,
        _ => CacheErrorView::IOError,
    }
}

/// `root` is `path` or one of the directories above it. Both are canonical
/// paths as byte strings: absolute, with single separators and no trailing
/// one but for the file system's root.
pub open spec fn is_ancestor(root: Seq<u8>, path: Seq<u8>) -> bool {
    &&& root.len() <= path.len()
    &&& path.subrange(0, root.len() as int) == root
    &&& (root.len() == path.len() || path[root.len() as int] == 0x2f || (root.len() > 0
        && root.last() == 0x2f))
}

/// Some key of the set has `n` characters and none has more.
pub open spec fn longest_in(keys: Set<Seq<char>>, n: nat) -> bool {
    &&& exists|k: Seq<char>| #[trigger] keys.contains(k) && k.len() == n
    &&& forall|k: Seq<char>| #[trigger] keys.contains(k) ==> k.len() <= n
}

/// `n` hyphens.
pub open spec fn hyphens(n: nat) -> Seq<char> {
    Seq::new(n, |i: int| '-')
}

/// What a store stands for in contracts.
pub struct CacheView {
    /// The canonical root directories, in the order in which they were given.
    pub roots: Seq<Seq<char>>,
    /// The tracked records by key.
    pub records: Map<Seq<char>, ImageView>,
    /// How long cached bytes stay fresh, in milliseconds.
    pub max_age: i64,
    /// The remembered key of the newest record.
    pub newest: Option<Seq<char>>,
}

impl CacheView {
    /// Some root is an ancestor of the path.
    pub open spec fn in_scope(self, path: Seq<char>) -> bool {
        exists|i: int|
            0 <= i < self.roots.len() && is_ancestor(
                encode_utf8(#[trigger] self.roots[i]),
                encode_utf8(path),
            )
    }

    /// Some record has the path.
    pub open spec fn tracks(self, path: Seq<char>) -> bool {
        exists|k: Seq<char>| #[trigger] self.records.contains_key(k) && self.records[k].path == path
    }

    /// A key under which the path is tracked.
    pub open spec fn key_of(self, path: Seq<char>) -> Seq<char> {
        choose|k: Seq<char>| #[trigger]
            self.records.contains_key(k) && self.records[k].path == path
    }

    /// The key is tracked, and no tracked record was created later than its
    /// record.
    pub open spec fn is_newest(self, key: Seq<char>) -> bool {
        &&& self.records.contains_key(key)
        &&& forall|k: Seq<char>| #[trigger]
            self.records.contains_key(k) ==> self.records[k].image_age
                <= self.records[key].image_age
    }

    /// What holds of every store: finitely many records, no path tracked
    /// twice, every path below some root, and a remembered key that is tracked
    /// and newest.
    pub open spec fn valid(self) -> bool {
        &&& self.records.dom().finite()
        &&& forall|a: Seq<char>, b: Seq<char>|
            #![trigger self.records.contains_key(a), self.records.contains_key(b)]
            self.records.contains_key(a) && self.records.contains_key(b) && self.records[a].path
                == self.records[b].path ==> a == b
        &&& forall|k: Seq<char>| #[trigger]
            self.records.contains_key(k) ==> self.in_scope(self.records[k].path)
        &&& (self.newest matches Some(k) ==> self.is_newest(k))
    }

    /// The record that inserting the probe at `now` creates, or the error
    /// that it ends with. The tests are made in this order: the path has a
    /// canonical form and is known to be a file or not; it is a file; it lies
    /// below a root; its leading bytes were read and name a format; its
    /// creation time is known.
    pub open spec fn admission(self, probe: FileProbe, now: i64) -> Result<
        ImageView,
        CacheErrorView,
    > {
        if probe.canonical is None || probe.is_file is None {
            Err(CacheErrorView::IOError)
        } else if !probe.is_file->0 {
            Err(CacheErrorView::NotAFile)
        } else if !self.in_scope(probe.canonical->0@) {
            Err(CacheErrorView::OutOfScope)
        } else {
            match probed(probe, now) {
                Ok(image) => Ok(image),
                Err(e) => Err(rejection(e)),
            }
        }
    }

    /// Some tracked key has `n` characters and none has more.
    pub open spec fn is_longest(self, n: nat) -> bool {
        longest_in(self.records.dom(), n)
    }

    /// The greatest length of a tracked key, or 0 where nothing is tracked.
    pub open spec fn longest_key(self) -> nat {
        if exists|n: nat| self.is_longest(n) {
            choose|n: nat| self.is_longest(n)
        } else {
            0
        }
    }

    /// The key that a new record gets when `candidate` was drawn for it: the
    /// candidate itself unless it is in use, else the candidate with hyphens
    /// added until it is longer than every key in use.
    pub open spec fn settled_key(self, candidate: Seq<char>) -> Seq<char> {
        if self.records.contains_key(candidate) {
            candidate + hyphens((self.longest_key() + 1 - candidate.len()) as nat)
        } else {
            candidate
        }
    }

    /// The store without the record of the path. Where it had one, nothing is
    /// remembered as newest afterwards; where it had none, nothing changes.
    pub open spec fn removed(self, path: Seq<char>) -> CacheView {
        if self.tracks(path) {
            CacheView { records: self.records.remove(self.key_of(path)), newest: None, ..self }
        } else {
            self
        }
    }

    /// The store after a record was put in under a key: an earlier record of
    /// the same path is gone, and nothing is remembered as newest.
    pub open spec fn inserted(self, key: Seq<char>, image: ImageView) -> CacheView {
        CacheView {
            records: self.removed(image.path).records.insert(key, image),
            newest: None,
            ..self
        }
    }

    /// The probe passes every test of `admission`.
    pub open spec fn admits(self, probe: FileProbe) -> bool {
        self.admission(probe, 0) is Ok
    }

    /// `r` and `after` are what inserting the probe at `now` gives when
    /// `candidate` was drawn as its key.
    pub open spec fn answers_insert(
        self,
        probe: FileProbe,
        candidate: Seq<char>,
        now: i64,
        after: CacheView,
        r: Result<String, CacheError>,
    ) -> bool {
        match r {
            Ok(key) => {
                &&& self.admission(probe, now) is Ok
                &&& key@ == self.settled_key(candidate)
                &&& after == self.inserted(key@, self.admission(probe, now)->Ok_0)
            },
            Err(e) => {
                &&& self.admission(probe, now) == Err::<ImageView, CacheErrorView>(e@)
                &&& after == self
            },
        }
    }

    /// What asking for `key` at `now` yields.
    pub open spec fn fetched(self, key: Seq<char>, now: i64) -> Result<FetchView, CacheErrorView> {
        if !self.records.contains_key(key) {
            Err(CacheErrorView::NotFound)
        } else if self.records[key].is_fresh(now, self.max_age) {
            Ok(FetchView::Ready(self.records[key]))
        } else {
            Ok(FetchView::Load { key: key, path: self.records[key].path })
        }
    }

    /// The store after the load for `key` ended at `now` with `outcome`.
    pub open spec fn stored(
        self,
        key: Seq<char>,
        outcome: Result<(Seq<u8>, Seq<u8>), RecordError>,
        now: i64,
    ) -> CacheView {
        if self.records.contains_key(key) && outcome is Ok {
            CacheView {
                records: self.records.insert(key, self.records[key].resolved(outcome, now)),
                ..self
            }
        } else {
            self
        }
    }

    /// What the caller gets when the load for `key` ended at `now` with
    /// `outcome`.
    pub open spec fn store_answer(
        self,
        key: Seq<char>,
        outcome: Result<(Seq<u8>, Seq<u8>), RecordError>,
        now: i64,
    ) -> Result<ImageView, CacheErrorView> {
        if !self.records.contains_key(key) {
            Err(CacheErrorView::NotFound)
        } else {
            match outcome {
                Err(cause) => Err(CacheErrorView::ResolveFailed { key: key, cause: cause }),
                Ok(_) => Ok(self.records[key].resolved(outcome, now)),
            }
        }
    }

    /// `r` is the answer to a request for `key` at `now`.
    pub open spec fn answers_fetch(self, key: Seq<char>, now: i64, r: Result<Fetch, CacheError>) -> bool {
        match r {
            Ok(fetch) => self.fetched(key, now) == Ok::<FetchView, CacheErrorView>(fetch@),
            Err(e) => self.fetched(key, now) == Err::<FetchView, CacheErrorView>(e@),
        }
    }

    /// `r` is what the caller gets when the load for `key` ended at `now`
    /// with `outcome`.
    pub open spec fn answers_store(
        self,
        key: Seq<char>,
        outcome: Result<(Seq<u8>, Seq<u8>), RecordError>,
        now: i64,
        r: Result<Image, CacheError>,
    ) -> bool {
        match r {
            Ok(image) => self.store_answer(key, outcome, now) == Ok::<ImageView, CacheErrorView>(
                image@,
            ),
            Err(e) => self.store_answer(key, outcome, now) == Err::<ImageView, CacheErrorView>(e@),
        }
    }

    /// The store after a sweep at `now`: expired records lose their bytes, and
    /// a remembered newest record that was resolved more than `max_age` ago
    /// is forgotten.
    pub open spec fn swept(self, now: i64) -> CacheView {
        CacheView {
            records: self.records.map_values(
                |image: ImageView| swept_record(image, now, self.max_age),
            ),
            newest: match self.newest {
                Some(k) => if elapsed(self.records[k].cache_time, now) > self.max_age {
                    None
                } else {
                    Some(k)
                },
                None => None,
            },
            ..self
        }
    }

    /// The store with `key` remembered as the newest.
    pub open spec fn recalled(self, key: Option<Seq<char>>) -> CacheView {
        CacheView { newest: key, ..self }
    }

    /// `r` and `after` are what asking for the key of the newest record
    /// gives: the remembered key where there is one; else a key whose record
    /// was created last, which is remembered from then on; or nothing, where
    /// nothing is tracked.
    pub open spec fn answers_newest(self, after: CacheView, r: Option<Seq<char>>) -> bool {
        &&& after == self.recalled(r)
        &&& self.newest is Some ==> r == self.newest
        &&& r is None <==> self.records.dom().len() == 0
        &&& r matches Some(k) ==> self.is_newest(k)
    }

    /// `entry` is the listing's entry of some tracked record.
    pub open spec fn shows(self, prefix: Seq<char>, entry: ImageJsonView) -> bool {
        exists|k: Seq<char>| #[trigger]
            self.records.contains_key(k) && entry == listed(prefix, k, self.records[k])
    }

    /// `out` lists every tracked record once, as its address below `prefix`
    /// and its creation time, later ones first.
    pub open spec fn lists(self, prefix: Seq<char>, out: Seq<ImageJsonView>) -> bool {
        &&& out.len() == self.records.dom().len()
        &&& forall|i: int| 0 <= i < out.len() ==> self.shows(prefix, #[trigger] out[i])
        &&& forall|k: Seq<char>| #[trigger]
            self.records.contains_key(k) ==> out.contains(listed(prefix, k, self.records[k]))
        &&& forall|i: int, j: int| 0 <= i < j < out.len() ==> out[i].url != out[j].url
        &&& is_descending(out)
    }

    /// `after` is the store with one more probe offered to it: left as it is
    /// where the probe is refused, else with the probe's record under some
    /// key that was not in use, stamped with some time.
    pub open spec fn offers(self, probe: FileProbe, after: CacheView) -> bool {
        if self.admits(probe) {
            exists|key: Seq<char>, now: i64| self.puts(probe, key, now, after)
        } else {
            after == self
        }
    }

    /// `after` is the store with the probe's record of time `now` put in
    /// under `key`, which was not in use.
    pub open spec fn puts(self, probe: FileProbe, key: Seq<char>, now: i64, after: CacheView) -> bool {
        &&& !self.records.contains_key(key)
        &&& self.admission(probe, now) is Ok
        &&& after == self.inserted(key, self.admission(probe, now)->Ok_0)
    }

    /// `after` is the store with the probes offered to it one by one, first
    /// to last.
    pub open spec fn grows_to(self, probes: Seq<FileProbe>, after: CacheView) -> bool
        decreases probes.len(),
    {
        if probes.len() == 0 {
            after == self
        } else {
            exists|mid: CacheView|
                self.grows_to(probes.drop_last(), mid) && #[trigger] mid.offers(
                    probes.last(),
                    after,
                )
        }
    }

    /// The store after the paths were removed one by one, first to last.
    pub open spec fn removed_all(self, paths: Seq<Seq<char>>) -> CacheView
        decreases paths.len(),
    {
        if paths.len() == 0 {
            self
        } else {
            self.removed_all(paths.drop_last()).removed(paths.last())
        }
    }
}

/// A record after a sweep at `now`: without its bytes where they have
/// expired, else as it was.
pub open spec fn swept_record(image: ImageView, now: i64, max_age: i64) -> ImageView {
    if image.is_expired(now, max_age) {
        image.cleared()
    } else {
        image
    }
}

/// The listing's entry for the record under `key`.
pub open spec fn listed(prefix: Seq<char>, key: Seq<char>, image: ImageView) -> ImageJsonView {
    ImageJsonView { date: image.image_age, url: prefix + seq!['/'] + key }
}

/// No entry is followed by one with a later date.
pub open spec fn is_descending(out: Seq<ImageJsonView>) -> bool {
    forall|i: int, j: int| 0 <= i < j < out.len() ==> out[i].date >= out[j].date
}

/// The entries of a listing as they stand in contracts.
pub open spec fn listing_view(v: Seq<ImageJson>) -> Seq<ImageJsonView> {
    v.map_values(|e: ImageJson| e@)
}

/// The key that an optional string stands for.
pub open spec fn key_view(key: Option<String>) -> Option<Seq<char>> {
    match key {
        Some(k) => Some(k@),
        None => None,
    }
}

/// The paths that strings stand for.
pub open spec fn paths_view(paths: Seq<String>) -> Seq<Seq<char>> {
    paths.map_values(|p: String| p@)
}

/// Storing the outcome of a load keeps a valid store valid: the record keeps
/// its path and its creation time.
pub proof fn lemma_stored_valid(
    c: CacheView,
    key: Seq<char>,
    outcome: Result<(Seq<u8>, Seq<u8>), RecordError>,
    now: i64,
)
    requires
        c.valid(),
    ensures
        c.stored(key, outcome, now).valid(),
{
    let d = c.stored(key, outcome, now);
    if c.records.contains_key(key) && outcome is Ok {
        assert(d.records.dom() =~= c.records.dom());
        assert forall|k: Seq<char>| #[trigger] d.records.contains_key(k) implies d.in_scope(
            d.records[k].path,
        ) by {
            assert(c.records.contains_key(k));
            assert(c.in_scope(c.records[k].path));
            assert(d.records[k].path == c.records[k].path);
            let i = choose|i: int|
                0 <= i < c.roots.len() && is_ancestor(
                    encode_utf8(#[trigger] c.roots[i]),
                    encode_utf8(c.records[k].path),
                );
            assert(is_ancestor(encode_utf8(d.roots[i]), encode_utf8(d.records[k].path)));
        }
        assert forall|a: Seq<char>, b: Seq<char>|
            #![trigger d.records.contains_key(a), d.records.contains_key(b)]
            d.records.contains_key(a) && d.records.contains_key(b) && d.records[a].path
                == d.records[b].path implies a == b by {
            assert(c.records.contains_key(a) && c.records.contains_key(b));
        }
        if let Some(n) = d.newest {
            assert(c.is_newest(n));
            assert forall|k: Seq<char>| #[trigger] d.records.contains_key(k) implies d.records[k].image_age
                <= d.records[n].image_age by {
                assert(c.records.contains_key(k));
            }
        }
    }
}

/// A tracked key is the key of its record's path.
pub proof fn lemma_key_of(c: CacheView, key: Seq<char>)
    requires
        c.valid(),
        c.records.contains_key(key),
    ensures
        c.tracks(c.records[key].path),
        c.key_of(c.records[key].path) == key,
{
    let path = c.records[key].path;
    let k = c.key_of(path);
    assert(c.records.contains_key(k) && c.records[k].path == path);
}

/// Where a key is tracked, some length is the greatest among the keys, and
/// the key is no longer than that.
pub proof fn lemma_longest(c: CacheView, key: Seq<char>)
    requires
        c.valid(),
        c.records.contains_key(key),
    ensures
        c.is_longest(c.longest_key()),
        key.len() <= c.longest_key(),
{
    assert(c.records.dom().contains(key));
    assert(c.records.dom().len() > 0) by {
        if c.records.dom().len() == 0 {
            assert(c.records.dom() =~= Set::empty());
        }
    }
    lemma_some_longest(c.records.dom());
    let n = choose|n: nat| longest_in(c.records.dom(), n);
    assert(c.is_longest(n));
}

/// A finite set of keys that is not empty has a longest member.
proof fn lemma_some_longest(keys: Set<Seq<char>>)
    requires
        keys.finite(),
        keys.len() > 0,
    ensures
        exists|n: nat| longest_in(keys, n),
    decreases keys.len(),
{
    let one = keys.choose();
    let rest = keys.remove(one);
    assert(keys.contains(one));
    if rest.len() == 0 {
        assert(rest =~= Set::empty());
        assert forall|k: Seq<char>| #[trigger] keys.contains(k) implies k.len() <= one.len() by {
            if k != one {
                assert(rest.contains(k));
            }
        }
        assert(longest_in(keys, one.len()));
    } else {
        lemma_some_longest(rest);
        let m = choose|n: nat| longest_in(rest, n);
        let km = choose|k: Seq<char>| #[trigger] rest.contains(k) && k.len() == m;
        if one.len() > m {
            assert forall|k: Seq<char>| #[trigger] keys.contains(k) implies k.len()
                <= one.len() by {
                if k != one {
                    assert(rest.contains(k));
                }
            }
            assert(longest_in(keys, one.len()));
        } else {
            assert forall|k: Seq<char>| #[trigger] keys.contains(k) implies k.len() <= m by {
                if k != one {
                    assert(rest.contains(k));
                }
            }
            assert(keys.contains(km) && km.len() == m);
            assert(longest_in(keys, m));
        }
    }
}

/// The settled key is never one that is in use.
pub proof fn lemma_settled_is_free(c: CacheView, candidate: Seq<char>)
    requires
        c.valid(),
    ensures
        !c.records.contains_key(c.settled_key(candidate)),
{
    if c.records.contains_key(candidate) {
        lemma_longest(c, candidate);
        let key = c.settled_key(candidate);
        assert(key.len() == c.longest_key() + 1);
    }
}

/// Dropping the record of a path keeps a valid store valid.
pub proof fn lemma_removed_valid(c: CacheView, path: Seq<char>)
    requires
        c.valid(),
    ensures
        c.removed(path).valid(),
        !c.removed(path).tracks(path),
{
    let d = c.removed(path);
    if c.tracks(path) {
        let gone = c.key_of(path);
        assert forall|k: Seq<char>| #[trigger] d.records.contains_key(k) implies d.in_scope(
            d.records[k].path,
        ) by {
            lemma_scope_kept(c, d, c.records[k].path);
        }
        if d.tracks(path) {
            let k = choose|k: Seq<char>| #[trigger]
                d.records.contains_key(k) && d.records[k].path == path;
            assert(c.records.contains_key(k) && c.records.contains_key(gone));
        }
    }
}

/// Scope depends on the roots alone.
pub proof fn lemma_scope_kept(c: CacheView, d: CacheView, path: Seq<char>)
    requires
        c.roots == d.roots,
        c.in_scope(path),
    ensures
        d.in_scope(path),
{
    let i = choose|i: int|
        0 <= i < c.roots.len() && is_ancestor(encode_utf8(#[trigger] c.roots[i]), encode_utf8(path));
    assert(is_ancestor(encode_utf8(d.roots[i]), encode_utf8(path)));
}

/// Putting in a record of a path in scope, under a key that is not in use,
/// keeps a valid store valid.
pub proof fn lemma_inserted_valid(c: CacheView, key: Seq<char>, image: ImageView)
    requires
        c.valid(),
        !c.records.contains_key(key),
        c.in_scope(image.path),
    ensures
        c.inserted(key, image).valid(),
{
    let m = c.removed(image.path);
    let d = c.inserted(key, image);
    lemma_removed_valid(c, image.path);
    assert(m.records.dom().finite());
    assert forall|k: Seq<char>| #[trigger] d.records.contains_key(k) implies d.in_scope(
        d.records[k].path,
    ) by {
        if k == key {
            lemma_scope_kept(c, d, image.path);
        } else {
            assert(m.records.contains_key(k));
            lemma_scope_kept(m, d, m.records[k].path);
        }
    }
    assert forall|a: Seq<char>, b: Seq<char>|
        #![trigger d.records.contains_key(a), d.records.contains_key(b)]
        d.records.contains_key(a) && d.records.contains_key(b) && d.records[a].path
            == d.records[b].path implies a == b by {
        if a != key {
            assert(m.records.contains_key(a));
        }
        if b != key {
            assert(m.records.contains_key(b));
        }
    }
}

/// Whether a probe is admitted does not depend on the time.
pub proof fn lemma_admission_time(c: CacheView, probe: FileProbe, now: i64)
    ensures
        c.admission(probe, now) is Ok <==> c.admits(probe),
        c.admission(probe, now) is Err ==> c.admission(probe, now) == c.admission(probe, 0),
{
}

/// A sweep keeps a valid store valid: no record changes its path or its
/// creation time.
pub proof fn lemma_swept_valid(c: CacheView, now: i64)
    requires
        c.valid(),
    ensures
        c.swept(now).valid(),
{
    let d = c.swept(now);
    assert(d.records.dom() =~= c.records.dom());
    assert forall|k: Seq<char>| #[trigger] d.records.contains_key(k) implies d.in_scope(
        d.records[k].path,
    ) by {
        assert(c.records.contains_key(k));
        lemma_scope_kept(c, d, c.records[k].path);
    }
    assert forall|a: Seq<char>, b: Seq<char>|
        #![trigger d.records.contains_key(a), d.records.contains_key(b)]
        d.records.contains_key(a) && d.records.contains_key(b) && d.records[a].path
            == d.records[b].path implies a == b by {
        assert(c.records.contains_key(a) && c.records.contains_key(b));
    }
    if let Some(n) = d.newest {
        assert(c.is_newest(n));
        assert forall|k: Seq<char>| #[trigger] d.records.contains_key(k) implies d.records[k].image_age
            <= d.records[n].image_age by {
            assert(c.records.contains_key(k));
        }
    }
}

/// Two keys with one address below a prefix are one key.
pub proof fn lemma_address(prefix: Seq<char>, a: Seq<char>, b: Seq<char>)
    requires
        prefix + seq!['/'] + a == prefix + seq!['/'] + b,
    ensures
        a == b,
{
    let left = prefix + seq!['/'] + a;
    let right = prefix + seq!['/'] + b;
    let skip = prefix.len() + 1;
    assert(left.subrange(skip as int, left.len() as int) =~= a);
    assert(right.subrange(skip as int, right.len() as int) =~= b);
}

} // verus!
