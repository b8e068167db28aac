use vstd::prelude::*;
use vstd::rwlock::{ReadHandle, RwLock, RwLockPredicate};

use crate::cache::{CacheKey, CacheMap, LoadError};

verus! {

/// The invariant on every mapping ever stored in a cache store: it is a
/// well-formed identity-keyed mapping. Readers rely on it without seeing who
/// installed the mapping.
pub struct StoreInv;

impl<T: CacheKey> RwLockPredicate<CacheMap<T>> for StoreInv {
    open spec fn inv(self, m: CacheMap<T>) -> bool {
        m.wf()
    }
}

/// The shared cache store: a mapping from identity to record under a
/// reader/writer discipline — unlimited concurrent readers, at most one
/// writer, and the writer replaces the mapping wholesale. The swap is a
/// handle exchange, never I/O: a new mapping is built in full before it is
/// installed, so no reader ever sees a mapping under construction.
///
/// The swap discipline rests on the verified reader/writer lock underneath:
/// the only values the lock ever holds are the complete mappings handed to
/// [`CacheStore::new`] or installed by a [`CacheStore::replace`], each
/// satisfying the store invariant, and a reader's view is fixed for as long
/// as it holds its snapshot. What the lock's contract states in the mapping's
/// own terms is the invariant; that a snapshot is one whole installed
/// generation — never a mixture of two — is the swap discipline, taken as a
/// hypothesis by [`lemma_snapshot_unmixed`] and
/// [`lemma_snapshot_one_generation`] below.
pub struct CacheStore<T: CacheKey> {
    lock: RwLock<CacheMap<T>, StoreInv>,
}

/// A consistent, point-in-time view of the store. Every lookup made through
/// one snapshot is answered from the same complete mapping. Call
/// [`CacheSnapshot::release`] when done: the read slot is not given back on
/// drop.
pub struct CacheSnapshot<'a, T: CacheKey> {
    handle: ReadHandle<'a, CacheMap<T>, StoreInv>,
}

impl<'a, T: CacheKey> View for CacheSnapshot<'a, T> {
    type V = Map<Seq<char>, T>;

    closed spec fn view(&self) -> Map<Seq<char>, T> {
        self.handle.view()@
    }
}

impl<'a, T: CacheKey> CacheSnapshot<'a, T> {
    /// The mapping this snapshot reads from is well formed.
    pub closed spec fn wf(&self) -> bool {
        self.handle.view().wf()
    }

    /// Looks a record up by identity in this snapshot.
    pub fn get(&self, key: &str) -> (r: Option<&T>)
        requires
            self.wf(),
        ensures
            match r {
                Some(rec) => self@.contains_key(key@) && *rec == self@[key@],
                None => !self@.contains_key(key@),
            },
    {
        self.handle.borrow().get(key)
    }

    /// How many records this snapshot holds.
    pub fn len(&self) -> (n: usize)
        requires
            self.wf(),
        ensures
            n == self@.dom().len(),
    {
        self.handle.borrow().len()
    }

    /// The complete mapping this snapshot reads from.
    pub fn map(&self) -> (m: &CacheMap<T>)
        requires
            self.wf(),
        ensures
            m@ == self@,
            m.wf(),
    {
        self.handle.borrow()
    }

    /// Gives the read slot back.
    pub fn release(self) {
        let CacheSnapshot { handle } = self;
        handle.release_read();
    }
}

impl<T: CacheKey> CacheStore<T> {
    /// Wraps an initial, fully built mapping into a shared store.
    pub fn new(m: CacheMap<T>) -> (s: Self)
        requires
            m.wf(),
    {
        CacheStore { lock: RwLock::new(m, Ghost(StoreInv)) }
    }

    /// Obtains a point-in-time readable view. Never blocks on other readers;
    /// many callers may hold snapshots at once.
    pub fn read(&self) -> (snap: CacheSnapshot<'_, T>)
        ensures
            snap.wf(),
    {
        CacheSnapshot { handle: self.lock.acquire_read() }
    }

    /// Installs an entirely new mapping as the current state. Blocks briefly
    /// for the exclusive slot rather than dropping the update: a completed
    /// reload is never silently discarded under reader contention.
    pub fn replace(&self, m: CacheMap<T>)
        requires
            m.wf(),
    {
        let (_old, wh) = self.lock.acquire_write();
        wh.release_write(m);
    }
}

/// The reload policy on the mapping itself: a successful load fully
/// supersedes the current mapping — no merging, records absent from the new
/// file are gone — while a failed load leaves the current mapping exactly as
/// it was (stale but available).
pub fn reload_outcome<T: CacheKey>(
    current: CacheMap<T>,
    loaded: Result<CacheMap<T>, LoadError>,
) -> (next: CacheMap<T>)
    requires
        current.wf(),
        match loaded {
            Ok(m) => m.wf(),
            Err(_) => true,
        },
    ensures
        next.wf(),
        match loaded {
            Ok(m) => next == m,
            Err(_) => next == current,
        },
{
    match loaded {
        Ok(m) => m,
        Err(_) => current,
    }
}

/// Applies one reload attempt to the store, inside the store's exclusive
/// window: the freshly built mapping replaces the current one when the load
/// succeeded, and the current one is kept untouched when it failed. Returns
/// whether a new mapping was installed.
pub fn apply_reload<T: CacheKey>(
    store: &CacheStore<T>,
    loaded: Result<CacheMap<T>, LoadError>,
) -> (replaced: bool)
    requires
        match loaded {
            Ok(m) => m.wf(),
            Err(_) => true,
        },
    ensures
        replaced <==> loaded is Ok,
{
    let replaced = match &loaded {
        Ok(_) => true,
        Err(_) => false,
    };
    let (current, wh) = store.lock.acquire_write();
    let next = reload_outcome(current, loaded);
    wh.release_write(next);
    replaced
}

/// The lookup a snapshot answers for an identity.
pub open spec fn spec_lookup<T>(m: Map<Seq<char>, T>, k: Seq<char>) -> Option<T> {
    if m.contains_key(k) {
        Some(m[k])
    } else {
        None
    }
}

/// A reader concurrent with a reload sees no mixture of generations: its
/// snapshot holds either the mapping in force before the replace or the one
/// the replace installed, and then every one of its lookups — for every
/// identity — is answered from that single complete mapping.
pub proof fn lemma_snapshot_unmixed<T: CacheKey>(
    pre: Map<Seq<char>, T>,
    post: Map<Seq<char>, T>,
    snap: Map<Seq<char>, T>,
)
    requires
        snap == pre || snap == post,
    ensures
        (forall|k: Seq<char>| spec_lookup(snap, k) == spec_lookup(pre, k)) || (forall|k: Seq<char>|
            spec_lookup(snap, k) == spec_lookup(post, k)),
{
}

/// The same, over a whole history of installed generations: whatever
/// complete mapping of the history a snapshot holds, all of its lookups —
/// for every identity — agree with that one generation; no record of one
/// generation appears beside a gap of the same generation.
pub proof fn lemma_snapshot_one_generation<T: CacheKey>(
    generations: Seq<Map<Seq<char>, T>>,
    snap: Map<Seq<char>, T>,
)
    requires
        exists|i: int| 0 <= i < generations.len() && snap == generations[i],
    ensures
        exists|i: int|
            0 <= i < generations.len() && forall|k: Seq<char>|
                spec_lookup(snap, k) == spec_lookup(#[trigger] generations[i], k),
{
    let i = choose|i: int| 0 <= i < generations.len() && snap == generations[i];
    assert(0 <= i < generations.len() && forall|k: Seq<char>|
        spec_lookup(snap, k) == spec_lookup(generations[i], k));
}

} // verus!
