//! The store of tracked images.
//!
//! A store holds one record per canonical path, each under a key of its own.
//! Bytes are cached for a limited time: a record whose bytes are missing or too
//! old is handed out as a request to load its file, and takes in the outcome of
//! that load afterwards. The newest record is remembered until the set of
//! records changes or the remembered record goes stale.
//!
//! What each operation does is stated over the store's view, a `CacheView`.

use crate::cache::CacheTrait;
use crate::endpoints::api::schema::ImageJson;
use crate::image_cache::assoc::{
    as_map,
    distinct_keys,
    has_key,
    lemma_empty,
    lemma_lookup,
    lemma_map_values,
    lemma_position,
    lemma_push,
    lemma_remove,
    lemma_size,
    lemma_update,
    position,
};
use crate::image_cache::image::{
    now_millis,
    outcome_bytes,
    FileProbe,
    Image,
    ImageView,
    RecordError,
    Resolved,
};
use crate::image_cache::model::{
    hyphens,
    is_ancestor,
    is_descending,
    key_view,
    lemma_address,
    lemma_admission_time,
    lemma_inserted_valid,
    lemma_key_of,
    lemma_longest,
    lemma_removed_valid,
    lemma_settled_is_free,
    lemma_stored_valid,
    lemma_swept_valid,
    listed,
    listing_view,
    paths_view,
    swept_record,
    CacheView,
};
use vstd::prelude::*;
use vstd::std_specs::convert::FromSpecImpl;
use vstd::string::*;
use vstd::utf8::encode_utf8;

verus! {

/// Why an operation of the store failed.
#[derive(Clone, Debug, PartialEq, Eq)]
pub enum CacheError {
    /// No root directory is an ancestor of the path.
    OutOfScope,
    /// The path names something other than a regular file.
    NotAFile,
    /// The file's leading bytes belong to no known image format.
    UnsupportedFormat,
    /// The file, or a fact about it, could not be read.
    IOError,
    /// No record is tracked under the key.
    NotFound,
    /// The record under `key` could not be resolved.
    ResolveFailed { key: String, cause: RecordError },
}

/// What a `CacheError` stands for in contracts.
pub enum CacheErrorView {
    OutOfScope,
    NotAFile,
    UnsupportedFormat,
    IOError,
    NotFound,
    ResolveFailed { key: Seq<char>, cause: RecordError },
}

impl View for CacheError {
    type V = CacheErrorView;

    open spec fn view(&self) -> CacheErrorView {
        match self {
            CacheError::OutOfScope => CacheErrorView::OutOfScope,
            CacheError::NotAFile => CacheErrorView::NotAFile,
            CacheError::UnsupportedFormat => CacheErrorView::UnsupportedFormat,
            CacheError::IOError => CacheErrorView::IOError,
            CacheError::NotFound => CacheErrorView::NotFound,
            CacheError::ResolveFailed { key, cause } => CacheErrorView::ResolveFailed {
                key: key@,
                cause: *cause,
            },
        }
    }
}

/// What the store answers when a record is asked for.
#[derive(Debug)]
pub enum Fetch {
    /// The record, with bytes that are present and fresh.
    Ready(Image),
    /// The file at `path` has to be loaded for the record under `key`.
    Load { key: String, path: String },
}

/// What a `Fetch` stands for in contracts.
pub enum FetchView {
    Ready(ImageView),
    Load { key: Seq<char>, path: Seq<char> },
}

impl View for Fetch {
    type V = FetchView;

    open spec fn view(&self) -> FetchView {
        match self {
            Fetch::Ready(image) => FetchView::Ready(image@),
            Fetch::Load { key, path } => FetchView::Load { key: key@, path: path@ },
        }
    }
}

/// A record with its key.
struct Entry {
    key: String,
    image: Image,
}

/// The store.
pub struct Cache {
    directories: Vec<String>,
    cache: Vec<Entry>,
    max_cache_age_ms: i64,
    newest_image: Option<String>,
}

impl View for Cache {
    type V = CacheView;

    closed spec fn view(&self) -> CacheView {
        CacheView {
            roots: self.directories@.map_values(|d: String| d@),
            records: as_map(self.entries()),
            max_age: self.max_cache_age_ms,
            newest: match self.newest_image {
                Some(k) => Some(k@),
                None => None,
            },
        }
    }
}

impl Cache {
    /// The records in the order in which they are held.
    closed spec fn entries(&self) -> Seq<(Seq<char>, ImageView)> {
        self.cache@.map_values(|e: Entry| (e.key@, e.image@))
    }

    /// The store is in order: no key is held twice, and its view is valid.
    pub closed spec fn wf(&self) -> bool {
        &&& distinct_keys(self.entries())
        &&& self@.valid()
    }

    /// A store in order has a valid view.
    pub proof fn lemma_valid(&self)
        requires
            self.wf(),
        ensures
            self@.valid(),
    {
    }

    /// An empty store whose cached bytes stay fresh for `max_age`
    /// milliseconds.
    pub fn new(max_age: i64) -> (r: Cache)
        ensures
            r.wf(),
            r@ == (CacheView {
                roots: Seq::empty(),
                records: Map::empty(),
                max_age: max_age,
                newest: None,
            }),
    {
        let r = Cache {
            directories: Vec::new(),
            cache: Vec::new(),
            max_cache_age_ms: max_age,
            newest_image: None,
        };
        proof {
            lemma_empty::<Seq<char>, ImageView>();
            assert(r.entries() =~= Seq::empty());
            assert(r@.roots =~= Seq::empty());
        }
        r
    }

    /// How many records are tracked.
    pub fn len(&self) -> (r: usize)
        requires
            self.wf(),
        ensures
            r == self@.records.dom().len(),
    {
        proof {
            lemma_size(self.entries());
        }
        self.cache.len()
    }

    /// The position of the record under `key`.
    fn find_key(&self, key: &String) -> (r: Option<usize>)
        ensures
            match r {
                Some(i) => i < self.entries().len() && self.entries()[i as int].0 == key@,
                None => !has_key(self.entries(), key@),
            },
    {
        let mut i: usize = 0;
        while i < self.cache.len()
            invariant
                i <= self.cache.len(),
                forall|j: int| 0 <= j < i ==> self.entries()[j].0 != key@,
            decreases self.cache.len() - i,
        {
            if self.cache[i].key == *key {
                return Some(i);
            }
            i += 1;
        }
        None
    }

    /// The position of the record of `path`.
    fn find_path(&self, path: &String) -> (r: Option<usize>)
        ensures
            match r {
                Some(i) => i < self.entries().len() && self.entries()[i as int].1.path == path@,
                None => forall|j: int|
                    0 <= j < self.entries().len() ==> (#[trigger] self.entries()[j]).1.path
                        != path@,
            },
    {
        let mut i: usize = 0;
        while i < self.cache.len()
            invariant
                i <= self.cache.len(),
                forall|j: int| 0 <= j < i ==> (#[trigger] self.entries()[j]).1.path != path@,
            decreases self.cache.len() - i,
        {
            if self.cache[i].image.path == *path {
                return Some(i);
            }
            i += 1;
        }
        None
    }

    /// Answers a request for the record under `key` as of `now`: the record
    /// itself where its bytes are present and fresh, else the file to load.
    pub fn get_data_at(&self, key: &String, now: i64) -> (r: Result<Fetch, CacheError>)
        requires
            self.wf(),
        ensures
            self@.answers_fetch(key@, now, r),
    {
        match self.find_key(key) {
            None => Err(CacheError::NotFound),
            Some(i) => {
                proof {
                    lemma_position(self.entries(), i as int);
                }
                let entry = &self.cache[i];
                if entry.image.is_fresh_at(now, self.max_cache_age_ms) {
                    Ok(Fetch::Ready(entry.image.clone()))
                } else {
                    Ok(Fetch::Load { key: key.clone(), path: entry.image.path.clone() })
                }
            },
        }
    }

    /// Answers a request for the record under `key` as of the current time.
    pub fn get_data(&self, key: &String) -> (r: Result<Fetch, CacheError>)
        requires
            self.wf(),
        ensures
            exists|now: i64| self@.answers_fetch(key@, now, r),
            !self@.records.contains_key(key@) ==> r is Err && r->Err_0@
                == CacheErrorView::NotFound,
            self@.records.contains_key(key@) ==> r is Ok,
    {
        let now = now_millis();
        let r = self.get_data_at(key, now);
        assert(self@.answers_fetch(key@, now, r));
        r
    }

    /// Takes in the outcome of the load for `key`, which ended at `now`. A
    /// success is stored and handed back as the record; a failure is reported
    /// with the key and leaves the record as it was.
    pub fn store_data_at(
        &mut self,
        key: &String,
        outcome: Result<Resolved, RecordError>,
        now: i64,
    ) -> (r: Result<Image, CacheError>)
        requires
            old(self).wf(),
        ensures
            final(self).wf(),
            final(self)@ == old(self)@.stored(key@, outcome_bytes(outcome), now),
            old(self)@.answers_store(key@, outcome_bytes(outcome), now, r),
    {
        match self.find_key(key) {
            None => Err(CacheError::NotFound),
            Some(i) => {
                proof {
                    lemma_position(self.entries(), i as int);
                }
                match outcome {
                    Err(cause) => Err(CacheError::ResolveFailed { key: key.clone(), cause }),
                    Ok(resolved) => {
                        let ghost before = self.entries();
                        let ghost old_view = self@;
                        let entry = &mut self.cache[i];
                        let _ = entry.image.resolve_at(Ok(resolved), now);
                        let copy = entry.image.clone();
                        proof {
                            let after = self.entries();
                            let value = old_view.records[key@].resolved(
                                outcome_bytes(outcome),
                                now,
                            );
                            assert(after =~= before.update(i as int, (key@, value)));
                            lemma_update(before, i as int, value);
                            let new_view = self@;
                            assert(new_view.roots == old_view.roots);
                            assert(new_view.records == old_view.records.insert(key@, value));
                            lemma_stored_valid(old_view, key@, outcome_bytes(outcome), now);
                        }
                        Ok(copy)
                    },
                }
            },
        }
    }

    /// Takes in the outcome of the load for `key`, which ended just now.
    pub fn store_data(&mut self, key: &String, outcome: Result<Resolved, RecordError>) -> (r:
        Result<Image, CacheError>)
        requires
            old(self).wf(),
        ensures
            final(self).wf(),
            exists|now: i64|
                final(self)@ == old(self)@.stored(key@, outcome_bytes(outcome), now) && old(
                    self,
                )@.answers_store(key@, outcome_bytes(outcome), now, r),
            r is Ok <==> old(self)@.records.contains_key(key@) && outcome is Ok,
    {
        let now = now_millis();
        let r = self.store_data_at(key, outcome, now);
        assert(self@ == old(self)@.stored(key@, outcome_bytes(outcome), now) && old(
            self,
        )@.answers_store(key@, outcome_bytes(outcome), now, r));
        r
    }

    /// Whether some root is an ancestor of the path.
    pub fn in_scope(&self, path: &String) -> (r: bool)
        ensures
            r == self@.in_scope(path@),
    {
        let bytes = path.as_str().as_bytes();
        let mut i: usize = 0;
        while i < self.directories.len()
            invariant
                i <= self.directories.len(),
                bytes@ == encode_utf8(path@),
                forall|j: int|
                    0 <= j < i ==> !is_ancestor(
                        encode_utf8(#[trigger] self@.roots[j]),
                        encode_utf8(path@),
                    ),
            decreases self.directories.len() - i,
        {
            let root = self.directories[i].as_str().as_bytes();
            assert(root@ == encode_utf8(self@.roots[i as int]));
            if covers(root, bytes) {
                return true;
            }
            i += 1;
        }
        false
    }

    /// The greatest length of a tracked key.
    fn longest_key_len(&self) -> (n: usize)
        requires
            self.wf(),
        ensures
            n == self@.longest_key(),
    {
        let mut n: usize = 0;
        let mut i: usize = 0;
        while i < self.cache.len()
            invariant
                i <= self.cache.len(),
                i == 0 ==> n == 0,
                forall|j: int| 0 <= j < i ==> (#[trigger] self.entries()[j]).0.len() <= n,
                i > 0 ==> exists|j: int| 0 <= j < i && (#[trigger] self.entries()[j]).0.len() == n,
            decreases self.cache.len() - i,
        {
            let here = self.cache[i].key.as_str().unicode_len();
            assert(here == self.entries()[i as int].0.len());
            if i == 0 || here > n {
                n = here;
            }
            i += 1;
        }
        proof {
            let c = self@;
            let s = self.entries();
            if s.len() == 0 {
                assert forall|m: nat| !c.is_longest(m) by {
                    if c.is_longest(m) {
                        let k = choose|k: Seq<char>| #[trigger]
                            c.records.dom().contains(k) && k.len() == m;
                        lemma_lookup(s, k);
                    }
                }
            } else {
                let j = choose|j: int| 0 <= j < s.len() && (#[trigger] s[j]).0.len() == n;
                lemma_position(s, j);
                assert(c.records.contains_key(s[j].0));
                assert forall|k: Seq<char>| #[trigger] c.records.dom().contains(k) implies k.len()
                    <= n by {
                    lemma_lookup(s, k);
                    assert(s[position(s, k)].0.len() <= n);
                }
                assert(c.records.dom().contains(s[j].0));
                assert(c.is_longest(n as nat));
                let m = c.longest_key();
                assert(c.is_longest(m));
                let km = choose|k: Seq<char>| #[trigger]
                    c.records.dom().contains(k) && k.len() == m;
                assert(c.records.contains_key(km));
                assert(km.len() <= n);
                assert(s[j].0.len() <= m);
            }
        }
        n
    }

    /// Settles the key of a new record for which `candidate` was drawn.
    pub fn settle_key(&self, candidate: String) -> (key: String)
        requires
            self.wf(),
        ensures
            key@ == self@.settled_key(candidate@),
            !self@.records.contains_key(key@),
    {
        match self.find_key(&candidate) {
            None => candidate,
            Some(at) => {
                proof {
                    lemma_position(self.entries(), at as int);
                }
                let longest = self.longest_key_len();
                let ghost start = candidate@;
                let first = candidate.as_str().unicode_len();
                assert(first <= longest) by {
                    assert(self@.is_longest(self@.longest_key())) by {
                        lemma_longest(self@, start);
                    }
                }
                let mut n: u128 = first as u128;
                let mut key = candidate;
                while n <= longest as u128
                    invariant
                        first <= n <= longest + 1,
                        key@ == start + hyphens((n - first) as nat),
                        start.len() == first,
                    decreases longest + 1 - n,
                {
                    proof {
                        reveal_strlit("-");
                    }
                    key.append("-");
                    n = n + 1;
                    assert(key@ =~= start + hyphens((n - first) as nat));
                }
                proof {
                    lemma_longest(self@, start);
                    assert(key@.len() == longest + 1);
                }
                key
            },
        }
    }

    /// Inserts the probed file as of `now`, with `candidate` drawn as its
    /// key. A probe that fails a test is refused with the error of the first
    /// test it fails, and the store stays as it was. Otherwise the file is
    /// tracked as an unresolved record under a key that was not in use, and an
    /// earlier record of the same path is dropped.
    pub fn insert_data_with(&mut self, probe: &FileProbe, candidate: String, now: i64) -> (r:
        Result<String, CacheError>)
        requires
            old(self).wf(),
        ensures
            final(self).wf(),
            old(self)@.answers_insert(*probe, candidate@, now, final(self)@, r),
    {
        let path = match &probe.canonical {
            None => { return Err(CacheError::IOError); },
            Some(path) => path,
        };
        match probe.is_file {
            None => { return Err(CacheError::IOError); },
            Some(false) => { return Err(CacheError::NotAFile); },
            Some(true) => {},
        }
        if !self.in_scope(path) {
            return Err(CacheError::OutOfScope);
        }
        let image = match Image::from_probe_at(probe, now) {
            Err(RecordError::UnsupportedFormat) => { return Err(CacheError::UnsupportedFormat); },
            Err(_) => { return Err(CacheError::IOError); },
            Ok(image) => image,
        };
        let key = self.settle_key(candidate);
        let ghost before = self@;
        let ghost entries = self.entries();
        proof {
            lemma_removed_valid(before, image@.path);
        }
        match self.find_path(&image.path) {
            Some(i) => {
                proof {
                    lemma_position(entries, i as int);
                    lemma_remove(entries, i as int);
                    lemma_key_of(before, entries[i as int].0);
                }
                self.cache.remove(i);
                assert(self.entries() =~= entries.remove(i as int));
            },
            None => {
                proof {
                    assert(!before.tracks(image@.path)) by {
                        if before.tracks(image@.path) {
                            let k = before.key_of(image@.path);
                            lemma_lookup(entries, k);
                        }
                    }
                }
            },
        }
        let ghost kept = self.entries();
        assert(as_map(kept) == before.removed(image@.path).records);
        assert(!has_key(kept, key@)) by {
            if has_key(kept, key@) {
                assert(as_map(kept).contains_key(key@));
            }
        }
        proof {
            lemma_push(kept, key@, image@);
            lemma_inserted_valid(before, key@, image@);
        }
        let copy = key.clone();
        self.cache.push(Entry { key, image });
        self.newest_image = None;
        assert(self.entries() =~= kept.push((copy@, image@)));
        assert(self@.roots == before.roots);
        assert(self@ == before.inserted(copy@, image@));
        Ok(copy)
    }

    /// Inserts the probed file as of the current time, under a key drawn at
    /// random.
    pub fn insert_data(&mut self, probe: &FileProbe) -> (r: Result<String, CacheError>)
        requires
            old(self).wf(),
        ensures
            final(self).wf(),
            exists|candidate: Seq<char>, now: i64|
                old(self)@.answers_insert(*probe, candidate, now, final(self)@, r),
            r is Ok <==> old(self)@.admits(*probe),
            r matches Ok(key) ==> !old(self)@.records.contains_key(key@),
            old(self)@.offers(*probe, final(self)@),
    {
        let candidate = random_key();
        let now = now_millis();
        let ghost drawn = candidate@;
        let r = self.insert_data_with(probe, candidate, now);
        assert(old(self)@.answers_insert(*probe, drawn, now, self@, r));
        proof {
            lemma_settled_is_free(old(self)@, drawn);
            lemma_admission_time(old(self)@, *probe, now);
            if old(self)@.admits(*probe) {
                assert(old(self)@.puts(*probe, r->Ok_0@, now, self@));
            }
        }
        r
    }

    /// Stops tracking the file at `path` and hands its record back. A path
    /// that is not tracked changes nothing.
    pub fn remove_data(&mut self, path: &String) -> (r: Option<Image>)
        requires
            old(self).wf(),
        ensures
            final(self).wf(),
            final(self)@ == old(self)@.removed(path@),
            match r {
                Some(image) => old(self)@.tracks(path@) && image@ == old(self)@.records[old(
                    self,
                )@.key_of(path@)],
                None => !old(self)@.tracks(path@),
            },
    {
        let ghost before = self@;
        let ghost entries = self.entries();
        proof {
            lemma_removed_valid(before, path@);
        }
        match self.find_path(path) {
            Some(i) => {
                proof {
                    lemma_position(entries, i as int);
                    lemma_remove(entries, i as int);
                    lemma_key_of(before, entries[i as int].0);
                }
                let entry = self.cache.remove(i);
                self.newest_image = None;
                assert(self.entries() =~= entries.remove(i as int));
                assert(self@.roots == before.roots);
                Some(entry.image)
            },
            None => {
                proof {
                    assert(!before.tracks(path@)) by {
                        if before.tracks(path@) {
                            let k = before.key_of(path@);
                            lemma_lookup(entries, k);
                        }
                    }
                }
                None
            },
        }
    }

    /// The root directories.
    pub fn directories(&self) -> (r: Vec<String>)
        ensures
            paths_view(r@) == self@.roots,
    {
        let mut r: Vec<String> = Vec::new();
        let mut i: usize = 0;
        while i < self.directories.len()
            invariant
                i <= self.directories.len(),
                r@.len() == i,
                forall|j: int| 0 <= j < i ==> r@[j]@ == self.directories@[j]@,
            decreases self.directories.len() - i,
        {
            r.push(self.directories[i].clone());
            i += 1;
        }
        assert(paths_view(r@) =~= self@.roots);
        r
    }

    /// Sweeps the store as of `now`: every record whose bytes are older than
    /// the store allows gives them up, and the remembered newest record is
    /// forgotten where it was resolved too long ago.
    pub fn clean_cache_at(&mut self, now: i64)
        requires
            old(self).wf(),
        ensures
            final(self).wf(),
            final(self)@ == old(self)@.swept(now),
    {
        let ghost before = self@;
        let ghost entries = self.entries();
        let max = self.max_cache_age_ms;
        let ghost f = |image: ImageView| swept_record(image, now, max);
        let mut i: usize = 0;
        while i < self.cache.len()
            invariant
                i <= self.cache.len(),
                self.cache.len() == entries.len(),
                self.max_cache_age_ms == max,
                self@.roots == before.roots,
                self@.newest == before.newest,
                forall|image: ImageView| #[trigger] f(image) == swept_record(image, now, max),
                forall|j: int| 0 <= j < i ==> #[trigger] self.entries()[j] == (entries[j].0, f(entries[j].1)),
                forall|j: int| i <= j < entries.len() ==> #[trigger] self.entries()[j] == entries[j],
            decreases self.cache.len() - i,
        {
            let ghost held = self.entries();
            assert(held[i as int] == entries[i as int]);
            if self.cache[i].image.is_expired_at(now, max) {
                let entry = &mut self.cache[i];
                entry.image.clear();
            }
            assert(f(entries[i as int].1) == swept_record(entries[i as int].1, now, max));
            assert(self.entries() =~= held.update(
                i as int,
                (entries[i as int].0, f(entries[i as int].1)),
            ));
            i += 1;
        }
        let ghost swept = self.entries();
        proof {
            assert forall|j: int| 0 <= j < entries.len() implies #[trigger] swept[j] == (
                entries[j].0,
                f(entries[j].1),
            ) by {
                assert(self.entries()[j] == (entries[j].0, f(entries[j].1)));
            }
            lemma_map_values(entries, swept, f);
            assert(self@.records =~= before.swept(now).records);
            lemma_swept_valid(before, now);
        }
        let stale = match &self.newest_image {
            None => false,
            Some(k) => match self.find_key(k) {
                None => true,
                Some(at) => {
                    proof {
                        lemma_position(swept, at as int);
                    }
                    self.cache[at].image.cache_age_at(now) > max
                },
            },
        };
        if stale {
            self.newest_image = None;
        }
        assert(self.entries() == swept);
        assert(self@.newest == before.swept(now).newest);
    }

    /// Sweeps the store as of the current time.
    pub fn clean_cache(&mut self)
        requires
            old(self).wf(),
        ensures
            final(self).wf(),
            exists|now: i64| final(self)@ == #[trigger] old(self)@.swept(now),
    {
        let now = now_millis();
        self.clean_cache_at(now);
        assert(self@ == old(self)@.swept(now));
    }

    /// The key of the newest record: the one that is remembered, or else one
    /// whose record was created last, which is remembered from then on.
    pub fn get_newest_image_id(&mut self) -> (r: Option<String>)
        requires
            old(self).wf(),
        ensures
            final(self).wf(),
            old(self)@.answers_newest(final(self)@, key_view(r)),
    {
        proof {
            lemma_size(self.entries());
        }
        if let Some(id) = &self.newest_image {
            let r = Some(id.clone());
            assert(self@.recalled(key_view(r)) == self@);
            return r;
        }
        if self.cache.len() == 0 {
            assert(self@.recalled(None) == self@);
            return None;
        }
        let mut best: usize = 0;
        let mut i: usize = 1;
        while i < self.cache.len()
            invariant
                best < i <= self.cache.len(),
                forall|j: int|
                    0 <= j < i ==> (#[trigger] self.entries()[j]).1.image_age
                        <= self.entries()[best as int].1.image_age,
            decreases self.cache.len() - i,
        {
            if self.cache[i].image.image_age > self.cache[best].image.image_age {
                best = i;
            }
            i += 1;
        }
        let id = self.cache[best].key.clone();
        proof {
            let s = self.entries();
            lemma_position(s, best as int);
            assert forall|k: Seq<char>| #[trigger] self@.records.contains_key(k) implies self@.records[k].image_age
                <= self@.records[id@].image_age by {
                lemma_lookup(s, k);
                assert(s[position(s, k)].1.image_age <= s[best as int].1.image_age);
            }
            assert(self@.is_newest(id@));
        }
        self.newest_image = Some(id.clone());
        assert(self@.roots == old(self)@.roots);
        assert(self@ == old(self)@.recalled(Some(id@)));
        Some(id)
    }

    /// Asks for the newest record as of `now`. Nothing is handed out where
    /// nothing is tracked.
    pub fn get_newest_image_at(&mut self, now: i64) -> (r: Option<Fetch>)
        requires
            old(self).wf(),
        ensures
            final(self).wf(),
            old(self)@.answers_newest(final(self)@, final(self)@.newest),
            match r {
                Some(fetch) => final(self)@.newest is Some && final(self)@.fetched(
                    final(self)@.newest->0,
                    now,
                ) == Ok::<FetchView, CacheErrorView>(fetch@),
                None => final(self)@.newest is None,
            },
    {
        match self.get_newest_image_id() {
            None => None,
            Some(id) => {
                match self.get_data_at(&id, now) {
                    Ok(fetch) => Some(fetch),
                    Err(_) => None,
                }
            },
        }
    }

    /// Asks for the newest record as of the current time.
    pub fn get_newest_image(&mut self) -> (r: Option<Fetch>)
        requires
            old(self).wf(),
        ensures
            final(self).wf(),
            old(self)@.answers_newest(final(self)@, final(self)@.newest),
            r is Some <==> final(self)@.newest is Some,
            r matches Some(fetch) ==> exists|now: i64| #[trigger]
                final(self)@.fetched(final(self)@.newest->0, now) == Ok::<
                    FetchView,
                    CacheErrorView,
                >(fetch@),
    {
        let now = now_millis();
        let r = self.get_newest_image_at(now);
        proof {
            if r is Some {
                assert(self@.fetched(self@.newest->0, now) == Ok::<FetchView, CacheErrorView>(
                    r->0@,
                ));
            }
        }
        r
    }

    /// Lists every tracked record as its address below `prefix` and its
    /// creation time, later ones first. No record is resolved for it.
    pub fn get_images(&self, prefix: &str) -> (r: Vec<ImageJson>)
        requires
            self.wf(),
        ensures
            self@.lists(prefix@, listing_view(r@)),
    {
        let ghost s = self.entries();
        let mut out: Vec<ImageJson> = Vec::new();
        let ghost mut order: Seq<int> = Seq::empty();
        let mut i: usize = 0;
        while i < self.cache.len()
            invariant
                i <= self.cache.len(),
                s == self.entries(),
                out@.len() == i,
                order.len() == i,
                forall|j: int|
                    0 <= j < i ==> 0 <= #[trigger] order[j] < i && out@[j]@ == listed(
                        prefix@,
                        s[order[j]].0,
                        s[order[j]].1,
                    ),
                forall|e: int| 0 <= e < i ==> #[trigger] order.contains(e),
                forall|a: int, b: int| 0 <= a < b < i ==> order[a] != order[b],
                is_descending(listing_view(out@)),
            decreases self.cache.len() - i,
        {
            let entry = &self.cache[i];
            let date = entry.image.image_age;
            proof {
                reveal_strlit("/");
            }
            let url = String::from_str(prefix).concat("/").concat(entry.key.as_str());
            assert(url@ =~= prefix@ + seq!['/'] + s[i as int].0);
            let mut at: usize = 0;
            while at < out.len() && out[at].date >= date
                invariant
                    at <= out.len(),
                    forall|j: int| 0 <= j < at ==> out@[j].date >= date,
                decreases out.len() - at,
            {
                at += 1;
            }
            let ghost held = out@;
            let ghost held_order = order;
            let item = ImageJson { date, url };
            out.insert(at, item);
            proof {
                order = held_order.insert(at as int, i as int);
                held.insert_ensures(at as int, item);
                held_order.insert_ensures(at as int, i as int);
                assert forall|j: int| 0 <= j < i + 1 implies 0 <= #[trigger] order[j] < i + 1
                    && out@[j]@ == listed(prefix@, s[order[j]].0, s[order[j]].1) by {
                    if j < at {
                        assert(order[j] == held_order[j] && out@[j] == held[j]);
                    } else if j > at {
                        assert(order[j] == held_order[j - 1] && out@[j] == held[j - 1]);
                    }
                }
                assert forall|e: int| 0 <= e < i + 1 implies #[trigger] order.contains(e) by {
                    if e == i {
                        assert(order[at as int] == e);
                    } else {
                        assert(held_order.contains(e));
                        let j = choose|j: int| 0 <= j < held_order.len() && held_order[j] == e;
                        if j < at {
                            assert(order[j] == e);
                        } else {
                            assert(order[j + 1] == e);
                        }
                    }
                }
                assert forall|a: int, b: int| 0 <= a < b < i + 1 implies order[a] != order[b] by {
                    let a0 = if a < at { a } else { a - 1 };
                    let b0 = if b < at { b } else { b - 1 };
                    if a != at {
                        assert(order[a] == held_order[a0]);
                    }
                    if b != at {
                        assert(order[b] == held_order[b0]);
                    }
                }
                assert(is_descending(listing_view(out@))) by {
                    let now = listing_view(out@);
                    let was = listing_view(held);
                    assert forall|a: int, b: int| 0 <= a < b < now.len() implies now[a].date
                        >= now[b].date by {
                        let a0 = if a < at { a } else { a - 1 };
                        let b0 = if b < at { b } else { b - 1 };
                        if a != at && b != at {
                            assert(out@[a] == held[a0] && out@[b] == held[b0]);
                            assert(was[a0].date >= was[b0].date);
                        } else if a == at {
                            assert(out@[b] == held[b0]);
                            if at < held.len() {
                                assert(was[at as int].date >= was[b0].date || at as int == b0);
                            }
                        } else {
                            assert(out@[a] == held[a0]);
                        }
                    }
                }
            }
            i += 1;
        }
        proof {
            let c = self@;
            let view = listing_view(out@);
            lemma_size(s);
            assert forall|j: int| 0 <= j < view.len() implies c.shows(
                prefix@,
                #[trigger] view[j],
            ) by {
                lemma_position(s, order[j]);
                assert(c.records.contains_key(s[order[j]].0));
            }
            assert forall|a: int, b: int| 0 <= a < b < view.len() implies view[a].url
                != view[b].url by {
                if view[a].url == view[b].url {
                    lemma_address(prefix@, s[order[a]].0, s[order[b]].0);
                    assert(order[a] == order[b]);
                }
            }
            assert forall|k: Seq<char>| #[trigger] c.records.contains_key(k) implies view.contains(
                listed(prefix@, k, c.records[k]),
            ) by {
                lemma_lookup(s, k);
                let e = position(s, k);
                assert(order.contains(e));
                let j = choose|j: int| 0 <= j < order.len() && order[j] == e;
                assert(view[j] == listed(prefix@, k, c.records[k]));
            }
        }
        out
    }

    /// Offers every probe to the store, first to last, and swallows the
    /// refusals.
    pub fn insert_all(&mut self, files: &Vec<FileProbe>)
        requires
            old(self).wf(),
        ensures
            final(self).wf(),
            old(self)@.grows_to(files@, final(self)@),
    {
        let ghost before = self@;
        let mut i: usize = 0;
        assert(files@.take(0) =~= Seq::empty());
        while i < files.len()
            invariant
                i <= files.len(),
                self.wf(),
                before.grows_to(files@.take(i as int), self@),
            decreases files.len() - i,
        {
            let ghost mid = self@;
            let r = self.insert_data(&files[i]);
            proof {
                let probe = files@[i as int];
                let next = files@.take(i + 1);
                assert(next.drop_last() =~= files@.take(i as int));
                assert(next.last() == probe);
                assert(before.grows_to(next.drop_last(), mid) && mid.offers(next.last(), self@));
                assert(before.grows_to(next, self@));
            }
            i += 1;
        }
        assert(files@.take(files@.len() as int) =~= files@);
    }

    /// Starts the store over with the given roots and offers it every probed
    /// file, without resolving any.
    pub fn init(&mut self, roots: Vec<String>, files: &Vec<FileProbe>)
        ensures
            final(self).wf(),
            (CacheView {
                roots: paths_view(roots@),
                records: Map::empty(),
                max_age: old(self)@.max_age,
                newest: None,
            }).grows_to(files@, final(self)@),
    {
        self.directories = roots;
        self.cache = Vec::new();
        self.newest_image = None;
        proof {
            lemma_empty::<Seq<char>, ImageView>();
            assert(self.entries() =~= Seq::empty());
            assert(self@.roots =~= paths_view(roots@));
        }
        self.insert_all(files);
    }
}

impl From<i64> for Cache {
    /// An empty store whose cached bytes stay fresh for `max_age`
    /// milliseconds.
    fn from(max_age: i64) -> (r: Self)
        ensures
            r.wf(),
            r@ == (CacheView {
                roots: Seq::empty(),
                records: Map::empty(),
                max_age: max_age,
                newest: None,
            }),
    {
        Cache::new(max_age)
    }
}

impl FromSpecImpl<i64> for Cache {
    open spec fn obeys_from_spec() -> bool {
        false
    }

    closed spec fn from_spec(max_age: i64) -> Self {
        arbitrary()
    }
}

impl CacheTrait for Cache {
    type Error = CacheError;

    type DataSource = FileProbe;

    type Data = Image;

    type Key = String;

    open spec fn valid(&self) -> bool {
        self.wf()
    }

    open spec fn inserts(&self, data: &FileProbe, after: &Cache) -> bool {
        self@.offers(*data, after@)
    }

    open spec fn removes(&self, data: &FileProbe, after: &Cache) -> bool {
        after@ == self@.removed(data.path@)
    }

    open spec fn sweeps(&self, after: &Cache) -> bool {
        exists|now: i64| after@ == #[trigger] self@.swept(now)
    }

    open spec fn count(&self) -> nat {
        self@.records.dom().len()
    }

    open spec fn sources(&self) -> Seq<Seq<char>> {
        self@.roots
    }

    fn insert_data(&mut self, data: &FileProbe) -> (r: Result<String, CacheError>) {
        Cache::insert_data(self, data)
    }

    fn remove_data(&mut self, data: &FileProbe) -> (r: Option<Image>) {
        Cache::remove_data(self, &data.path)
    }

    fn len(&self) -> (r: usize) {
        Cache::len(self)
    }

    fn directories(&self) -> (r: Vec<String>) {
        let r = Cache::directories(self);
        assert(paths_view(r@) == self@.roots);
        assert forall|i: int| 0 <= i < r@.len() implies (#[trigger] r@[i])@ == self@.roots[i] by {
            assert(paths_view(r@)[i] == r@[i]@);
        }
        r
    }

    fn clean_cache(&mut self) {
        Cache::clean_cache(self)
    }
}

/// `uuid::Uuid::new_v4`, in its hyphenated text form. The value is random:
/// nothing is claimed of it.
#[verifier::external_body]
fn random_key() -> String {
    uuid::Uuid::new_v4().to_string()
}

/// Whether `root` is `path` or a directory above it.
pub fn covers(root: &[u8], path: &[u8]) -> (r: bool)
    ensures
        r == is_ancestor(root@, path@),
{
    if root.len() > path.len() {
        return false;
    }
    let mut i: usize = 0;
    while i < root.len()
        invariant
            i <= root.len() <= path.len(),
            forall|j: int| 0 <= j < i ==> root@[j] == path@[j],
        decreases root.len() - i,
    {
        if root[i] != path[i] {
            assert(path@.subrange(0, root.len() as int)[i as int] != root@[i as int]);
            return false;
        }
        i += 1;
    }
    assert(path@.subrange(0, root.len() as int) =~= root@);
    root.len() == path.len() || path[root.len()] == 0x2f || (root.len() > 0 && root[root.len()
        - 1] == 0x2f)
}

} // verus!
