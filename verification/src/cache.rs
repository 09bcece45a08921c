//! What a cache offers to the tasks that keep it in step with the file
//! system, and what those tasks decide.
//!
//! The watcher task receives change notifications and applies them to the
//! cache in the order in which they arrive; the cleanup task sweeps the cache
//! at a fixed interval. Waiting for a notification and sleeping are left to
//! the program around the library: what stands here is the step that each
//! task takes once it wakes up.

use vstd::prelude::*;

verus! {

/// Seconds between two sweeps of the cleanup task.
pub const CLEANUP_INTERVAL_SECS: u64 = 60;

/// How many change notifications may wait for the watcher task before their
/// producer has to wait.
pub const WATCH_QUEUE_LEN: usize = 100;

/// A cache that is filled from data sources and swept from time to time.
pub trait CacheTrait: Sized {
    type Error;

    type DataSource;

    type Data;

    type Key;

    /// The cache is in order.
    spec fn valid(&self) -> bool;

    /// `after` is the cache with the data source offered to it.
    spec fn inserts(&self, data: &Self::DataSource, after: &Self) -> bool;

    /// `after` is the cache without what came from the data source.
    spec fn removes(&self, data: &Self::DataSource, after: &Self) -> bool;

    /// `after` is the cache swept at some time.
    spec fn sweeps(&self, after: &Self) -> bool;

    /// The number of items that are tracked.
    spec fn count(&self) -> nat;

    /// The directories from which the cache is filled, in their order.
    spec fn sources(&self) -> Seq<Seq<char>>;

    /// Offers a data source to the cache and hands back the key under which
    /// its data is tracked.
    fn insert_data(&mut self, data: &Self::DataSource) -> (r: Result<Self::Key, Self::Error>)
        requires
            old(self).valid(),
        ensures
            final(self).valid(),
            old(self).inserts(data, final(self)),
    ;

    /// Stops tracking what came from the data source, and hands it back.
    fn remove_data(&mut self, data: &Self::DataSource) -> (r: Option<Self::Data>)
        requires
            old(self).valid(),
        ensures
            final(self).valid(),
            old(self).removes(data, final(self)),
    ;

    /// How many items are tracked.
    fn len(&self) -> (r: usize)
        requires
            self.valid(),
        ensures
            r == self.count(),
    ;

    /// The directories from which the cache is filled.
    fn directories(&self) -> (r: Vec<String>)
        requires
            self.valid(),
        ensures
            r@.len() == self.sources().len(),
            forall|i: int| 0 <= i < r@.len() ==> (#[trigger] r@[i])@ == self.sources()[i],
    ;

    /// Frees what has been cached for too long.
    fn clean_cache(&mut self)
        requires
            old(self).valid(),
        ensures
            final(self).valid(),
            old(self).sweeps(final(self)),
    ;
}

/// How a file was renamed, as far as the notification tells.
#[derive(Clone, Copy, Debug, PartialEq, Eq, Structural)]
pub enum RenameMode {
    Any,
    /// The path is the new name.
    To,
    /// The path is the old name.
    From,
    /// Both names are given.
    Both,
    Other,
}

/// What about a file was modified.
#[derive(Clone, Copy, Debug, PartialEq, Eq, Structural)]
pub enum ModifyKind {
    Any,
    Data,
    Metadata,
    Name(RenameMode),
    Other,
}

/// The kind of a change notification.
#[derive(Clone, Copy, Debug, PartialEq, Eq, Structural)]
pub enum EventKind {
    Any,
    Access,
    Create,
    Modify(ModifyKind),
    Remove,
    Other,
}

/// What the watcher does with the paths of a notification.
#[derive(Clone, Copy, Debug, PartialEq, Eq, Structural)]
pub enum WatchAction {
    Insert,
    Remove,
    Ignore,
}

/// A change notification: its kind, and what is known of each path it names.
#[derive(Clone, Debug)]
pub struct WatchEvent<S> {
    pub kind: EventKind,
    pub paths: Vec<S>,
}

/// The action that a kind of notification calls for: a file that was created
/// or renamed into place is inserted, one that was removed or renamed away is
/// removed, and every other change is ignored.
pub open spec fn action_for(kind: EventKind) -> WatchAction {
    match kind {
        EventKind::Create => WatchAction::Insert,
        EventKind::Modify(ModifyKind::Name(RenameMode::To)) => WatchAction::Insert,
        EventKind::Remove => WatchAction::Remove,
        EventKind::Modify(ModifyKind::Name(RenameMode::From)) => WatchAction::Remove,
        _ => WatchAction::Ignore,
    }
}

/// `after` is the cache with the data sources offered to it one by one,
/// first to last.
pub open spec fn inserts_each<C: CacheTrait>(before: C, data: Seq<C::DataSource>, after: C) -> bool
    decreases data.len(),
{
    if data.len() == 0 {
        after == before
    } else {
        exists|mid: C|
            inserts_each(before, data.drop_last(), mid) && #[trigger] mid.inserts(
                &data.last(),
                &after,
            )
    }
}

/// `after` is the cache with the data sources removed from it one by one,
/// first to last.
pub open spec fn removes_each<C: CacheTrait>(before: C, data: Seq<C::DataSource>, after: C) -> bool
    decreases data.len(),
{
    if data.len() == 0 {
        after == before
    } else {
        exists|mid: C|
            removes_each(before, data.drop_last(), mid) && #[trigger] mid.removes(
                &data.last(),
                &after,
            )
    }
}

/// `after` is the cache with the notification applied to it.
pub open spec fn applies<C: CacheTrait>(before: C, event: WatchEvent<C::DataSource>, after: C) -> bool {
    match action_for(event.kind) {
        WatchAction::Insert => inserts_each(before, event.paths@, after),
        WatchAction::Remove => removes_each(before, event.paths@, after),
        WatchAction::Ignore => after == before,
    }
}

/// The action that a kind of notification calls for.
pub fn watch_action(kind: EventKind) -> (r: WatchAction)
    ensures
        r == action_for(kind),
{
    match kind {
        EventKind::Create => WatchAction::Insert,
        EventKind::Modify(ModifyKind::Name(RenameMode::To)) => WatchAction::Insert,
        EventKind::Remove => WatchAction::Remove,
        EventKind::Modify(ModifyKind::Name(RenameMode::From)) => WatchAction::Remove,
        _ => WatchAction::Ignore,
    }
}

/// One step of the watcher task: applies a notification to the cache. Every
/// path is handled, in the order in which the notification names them; a path
/// that the cache refuses does not stop the others.
pub fn directory_watcher<C: CacheTrait>(cache: &mut C, event: &WatchEvent<C::DataSource>)
    requires
        old(cache).valid(),
    ensures
        final(cache).valid(),
        applies(*old(cache), *event, *final(cache)),
{
    let ghost before = *cache;
    let ghost all = event.paths@;
    match watch_action(event.kind) {
        WatchAction::Insert => {
            let mut i: usize = 0;
            assert(all.take(0) =~= Seq::empty());
            while i < event.paths.len()
                invariant
                    i <= event.paths.len(),
                    all == event.paths@,
                    cache.valid(),
                    inserts_each(before, all.take(i as int), *cache),
                decreases event.paths.len() - i,
            {
                let ghost mid = *cache;
                let _ = cache.insert_data(&event.paths[i]);
                proof {
                    let next = all.take(i + 1);
                    assert(next.drop_last() =~= all.take(i as int));
                    assert(next.last() == all[i as int]);
                    assert(inserts_each(before, next.drop_last(), mid) && mid.inserts(
                        &next.last(),
                        &*cache,
                    ));
                }
                i += 1;
            }
            assert(all.take(all.len() as int) =~= all);
        },
        WatchAction::Remove => {
            let mut i: usize = 0;
            assert(all.take(0) =~= Seq::empty());
            while i < event.paths.len()
                invariant
                    i <= event.paths.len(),
                    all == event.paths@,
                    cache.valid(),
                    removes_each(before, all.take(i as int), *cache),
                decreases event.paths.len() - i,
            {
                let ghost mid = *cache;
                let _ = cache.remove_data(&event.paths[i]);
                proof {
                    let next = all.take(i + 1);
                    assert(next.drop_last() =~= all.take(i as int));
                    assert(next.last() == all[i as int]);
                    assert(removes_each(before, next.drop_last(), mid) && mid.removes(
                        &next.last(),
                        &*cache,
                    ));
                }
                i += 1;
            }
            assert(all.take(all.len() as int) =~= all);
        },
        WatchAction::Ignore => {},
    }
}

/// One step of the cleanup task: sweeps the cache.
pub fn cache_cleanup<C: CacheTrait>(cache: &mut C)
    requires
        old(cache).valid(),
    ensures
        final(cache).valid(),
        old(cache).sweeps(final(cache)),
{
    cache.clean_cache();
}

} // verus!
