use vstd::prelude::*;

use std::sync::Arc;

use crate::entry::LoadError;

verus! {

/// Names one snapshot of one simulation: the key of the cache.
#[derive(Debug, PartialEq, Eq, Hash)]
pub struct CacheRequest {
    pub simulation: String,
    pub snapshot_id: usize,
}

impl View for CacheRequest {
    type V = (Seq<char>, usize);

    open spec fn view(&self) -> (Seq<char>, usize) {
        (self.simulation@, self.snapshot_id)
    }
}

impl CacheRequest {
    /// Whether both name the same snapshot of the same simulation.
    pub fn same_as(&self, other: &CacheRequest) -> (r: bool)
        ensures
            r == (self@ == other@),
    {
        self.snapshot_id == other.snapshot_id && self.simulation == other.simulation
    }

    /// A copy naming the same snapshot.
    pub fn copy(&self) -> (r: CacheRequest)
        ensures
            r@ == self@,
    {
        CacheRequest { simulation: self.simulation.clone(), snapshot_id: self.snapshot_id }
    }
}

/// The cache after a load of `key` completed with `entry`: an entry cached earlier for
/// the key stays, otherwise the new one is added.
pub open spec fn stored<E>(cached: Map<(Seq<char>, usize), E>, key: (Seq<char>, usize), entry: E) -> Map<
    (Seq<char>, usize),
    E,
> {
    if cached.contains_key(key) {
        cached
    } else {
        cached.insert(key, entry)
    }
}

/// Once a key is cached its entry is settled. The first fetch of a key stores what it
/// loaded; every later fetch of the key finds that entry, and a second completed load
/// (of a key that two concurrent requests both found cold) changes nothing, so it too
/// returns the entry stored first.
pub proof fn lemma_cached_entry_is_kept<E>(
    cached: Map<(Seq<char>, usize), E>,
    key: (Seq<char>, usize),
    first: E,
    second: E,
)
    ensures
        stored(cached, key, first).contains_key(key),
        stored(stored(cached, key, first), key, second) == stored(cached, key, first),
        stored(stored(cached, key, first), key, second)[key] == stored(cached, key, first)[key],
        !cached.contains_key(key) ==> stored(cached, key, first)[key] == first,
{
}

/// The snapshot ids cached for `simulation`, in the order of `keys`.
pub open spec fn snapshot_ids_of(keys: Seq<(Seq<char>, usize)>, simulation: Seq<char>) -> Seq<usize>
    decreases keys.len(),
{
    if keys.len() == 0 {
        Seq::empty()
    } else {
        let earlier = snapshot_ids_of(keys.drop_last(), simulation);
        if keys.last().0 == simulation {
            earlier.push(keys.last().1)
        } else {
            earlier
        }
    }
}

/// Some group of `groups` belongs to `simulation`.
pub open spec fn has_group(groups: Seq<(String, Vec<usize>)>, simulation: Seq<char>) -> bool {
    exists|g: int| 0 <= g < groups.len() && (#[trigger] groups[g]).0@ == simulation
}

/// A simulation that none of `keys` names has no snapshot ids among them.
proof fn lemma_no_ids_without_simulation(keys: Seq<(Seq<char>, usize)>, simulation: Seq<char>)
    requires
        forall|j: int| 0 <= j < keys.len() ==> (#[trigger] keys[j]).0 != simulation,
    ensures
        snapshot_ids_of(keys, simulation) == Seq::<usize>::empty(),
    decreases keys.len(),
{
    if keys.len() > 0 {
        let init = keys.drop_last();
        assert forall|j: int| 0 <= j < init.len() implies (#[trigger] init[j]).0 != simulation by {
            assert(init[j] == keys[j]);
        }
        lemma_no_ids_without_simulation(init, simulation);
        assert(keys.last() == keys[keys.len() - 1]);
    }
}

/// The position of the group of `simulation` among `groups`, if there is one.
fn find_group(groups: &Vec<(String, Vec<usize>)>, simulation: &String) -> (r: Option<usize>)
    ensures
        match r {
            Some(g) => g < groups@.len() && groups@[g as int].0@ == simulation@,
            None => forall|g: int| 0 <= g < groups@.len() ==> (#[trigger] groups@[g]).0@ != simulation@,
        },
{
    let mut g: usize = 0;
    while g < groups.len()
        invariant
            g <= groups@.len(),
            forall|h: int| 0 <= h < g ==> (#[trigger] groups@[h]).0@ != simulation@,
        decreases groups.len() - g,
    {
        if groups[g].0 == *simulation {
            return Some(g);
        }
        g = g + 1;
    }
    None
}

/// What a request for a cached entry came to.
pub enum Fetched<E> {
    /// The entry was cached already.
    Cached(Arc<E>),
    /// The entry was loaded now and stored; the registrar is to hear of the addition.
    Loaded(Arc<E>),
    /// Loading failed and nothing was stored; the registrar is to hear of the removal.
    Failed(LoadError),
}

impl<E> Fetched<E> {
    /// The entry, or why there is none.
    pub fn into_result(self) -> (r: Result<Arc<E>, LoadError>)
        ensures
            match self {
                Fetched::Cached(e) => r == Ok::<Arc<E>, LoadError>(e),
                Fetched::Loaded(e) => r == Ok::<Arc<E>, LoadError>(e),
                Fetched::Failed(err) => r == Err::<Arc<E>, LoadError>(err),
            },
    {
        match self {
            Fetched::Cached(e) => Ok(e),
            Fetched::Loaded(e) => Ok(e),
            Fetched::Failed(err) => Err(err),
        }
    }
}

/// Relies on `rand::random`: a value from the thread-local generator, of which nothing
/// is known.
#[verifier::external_body]
fn random_token() -> isize {
    rand::random()
}

/// The keyed snapshot cache: loaded entries, shared by reference, kept for the life of
/// the cache, never replaced.
pub struct DataCache<E> {
    rand: isize,
    entries: Vec<(CacheRequest, Arc<E>)>,
    cached: Ghost<Map<(Seq<char>, usize), E>>,
    basedir: String,
    metadata_url: String,
    hostname: String,
}

impl<E> DataCache<E> {
    /// The cached entries, by key.
    pub closed spec fn cache(&self) -> Map<(Seq<char>, usize), E> {
        self.cached@
    }

    /// Directory under which each simulation's snapshots lie.
    pub closed spec fn basedir_view(&self) -> Seq<char> {
        self.basedir@
    }

    /// Address of the registrar that hears of loaded and failed snapshots.
    pub closed spec fn metadata_url_view(&self) -> Seq<char> {
        self.metadata_url@
    }

    /// How this server names itself to the registrar.
    pub closed spec fn hostname_view(&self) -> Seq<char> {
        self.hostname@
    }

    /// The token drawn when the cache was made.
    pub closed spec fn token(&self) -> isize {
        self.rand
    }

    /// The cached keys, in the order in which they were loaded.
    pub closed spec fn keys(&self) -> Seq<(Seq<char>, usize)> {
        self.entries@.map_values(|p: (CacheRequest, Arc<E>)| p.0@)
    }

    /// Each key is cached once, with the entry that the model holds for it.
    pub closed spec fn wf(&self) -> bool {
        &&& self.keys().no_duplicates()
        &&& self.cached@.dom() == self.keys().to_set()
        &&& forall|i: int|
            0 <= i < self.entries@.len() ==> self.cached@[#[trigger] self.entries@[i].0@]
                == *self.entries@[i].1
    }

    /// An empty cache.
    pub fn new(basedir: String, metadata_url: String, hostname: String) -> (r: Self)
        ensures
            r.wf(),
            r.cache() == Map::<(Seq<char>, usize), E>::empty(),
            r.keys() == Seq::<(Seq<char>, usize)>::empty(),
            r.basedir_view() == basedir@,
            r.metadata_url_view() == metadata_url@,
            r.hostname_view() == hostname@,
    {
        let r = DataCache {
            rand: random_token(),
            entries: Vec::new(),
            cached: Ghost(Map::empty()),
            basedir,
            metadata_url,
            hostname,
        };
        assert(r.keys() =~= Seq::<(Seq<char>, usize)>::empty());
        assert(r.cached@.dom() =~= r.keys().to_set());
        r
    }

    /// A token drawn when the cache was made, which tells one server process from another.
    pub fn rand(&self) -> (r: isize)
        ensures
            r == self.token(),
    {
        self.rand
    }

    /// Directory under which each simulation's snapshots lie.
    pub fn basedir(&self) -> (r: &String)
        ensures
            r@ == self.basedir_view(),
    {
        &self.basedir
    }

    /// Address of the registrar.
    pub fn metadata_url(&self) -> (r: &String)
        ensures
            r@ == self.metadata_url_view(),
    {
        &self.metadata_url
    }

    /// How this server names itself to the registrar.
    pub fn hostname(&self) -> (r: &String)
        ensures
            r@ == self.hostname_view(),
    {
        &self.hostname
    }

    /// The entry cached for `request`, if any.
    pub fn lookup(&self, request: &CacheRequest) -> (r: Option<Arc<E>>)
        requires
            self.wf(),
        ensures
            match r {
                Some(e) => self.cache().contains_key(request@) && *e == self.cache()[request@],
                None => !self.cache().contains_key(request@),
            },
    {
        let mut i: usize = 0;
        while i < self.entries.len()
            invariant
                self.wf(),
                i <= self.entries@.len(),
                forall|j: int| 0 <= j < i ==> self.keys()[j] != request@,
            decreases self.entries.len() - i,
        {
            if self.entries[i].0.same_as(request) {
                assert(self.keys()[i as int] == request@);
                return Some(self.entries[i].1.clone());
            }
            i = i + 1;
        }
        assert(!self.keys().contains(request@));
        None
    }

    /// The cached snapshot ids grouped by simulation: one group per cached simulation,
    /// each listing that simulation's snapshot ids in the order they were loaded.
    pub fn cached_entries(&self) -> (r: Vec<(String, Vec<usize>)>)
        requires
            self.wf(),
        ensures
            forall|a: int, b: int| 0 <= a < b < r@.len() ==> r@[a].0@ != r@[b].0@,
            forall|g: int|
                0 <= g < r@.len() ==> (#[trigger] r@[g]).1@ == snapshot_ids_of(self.keys(), r@[g].0@),
            forall|g: int| 0 <= g < r@.len() ==> (#[trigger] r@[g]).1@.len() > 0,
            forall|i: int| 0 <= i < self.keys().len() ==> has_group(r@, (#[trigger] self.keys()[i]).0),
    {
        let mut groups: Vec<(String, Vec<usize>)> = Vec::new();
        let mut i: usize = 0;
        while i < self.entries.len()
            invariant
                i <= self.entries@.len(),
                forall|a: int, b: int| 0 <= a < b < groups@.len() ==> groups@[a].0@ != groups@[b].0@,
                forall|g: int|
                    0 <= g < groups@.len() ==> (#[trigger] groups@[g]).1@ == snapshot_ids_of(
                        self.keys().subrange(0, i as int),
                        groups@[g].0@,
                    ),
                forall|g: int| 0 <= g < groups@.len() ==> (#[trigger] groups@[g]).1@.len() > 0,
                forall|j: int| 0 <= j < i ==> has_group(groups@, (#[trigger] self.keys()[j]).0),
            decreases self.entries.len() - i,
        {
            let key = &self.entries[i].0;
            let ghost done = self.keys().subrange(0, i as int);
            let ghost next = self.keys().subrange(0, i as int + 1);
            let ghost old_groups = groups@;
            assert(next.drop_last() =~= done);
            assert(next.last() == key@);
            match find_group(&groups, &key.simulation) {
                Some(g) => {
                    groups[g].1.push(key.snapshot_id);
                    assert forall|h: int|
                        0 <= h < groups@.len() implies (#[trigger] groups@[h]).1@ == snapshot_ids_of(
                        next,
                        groups@[h].0@,
                    ) by {
                        if h != g {
                            assert(groups@[h] == old_groups[h]);
                        }
                    }
                    assert forall|j: int| 0 <= j < i + 1 implies has_group(
                        groups@,
                        (#[trigger] self.keys()[j]).0,
                    ) by {
                        if j < i {
                            let h = choose|h: int|
                                0 <= h < old_groups.len() && (#[trigger] old_groups[h]).0@
                                    == self.keys()[j].0;
                            assert(groups@[h].0@ == old_groups[h].0@);
                        } else {
                            assert(groups@[g as int].0@ == self.keys()[j].0);
                        }
                    }
                },
                None => {
                    proof {
                        assert forall|j: int| 0 <= j < done.len() implies (#[trigger] done[j]).0
                            != key.simulation@ by {
                            assert(done[j] == self.keys()[j]);
                            assert(has_group(old_groups, self.keys()[j].0));
                        }
                        lemma_no_ids_without_simulation(done, key.simulation@);
                    }
                    let mut ids: Vec<usize> = Vec::new();
                    ids.push(key.snapshot_id);
                    groups.push((key.simulation.clone(), ids));
                    assert(ids@ =~= Seq::<usize>::empty().push(key.snapshot_id));
                    assert forall|h: int|
                        0 <= h < groups@.len() implies (#[trigger] groups@[h]).1@ == snapshot_ids_of(
                        next,
                        groups@[h].0@,
                    ) by {
                        if h < old_groups.len() {
                            assert(groups@[h] == old_groups[h]);
                        }
                    }
                    assert forall|j: int| 0 <= j < i + 1 implies has_group(
                        groups@,
                        (#[trigger] self.keys()[j]).0,
                    ) by {
                        if j < i {
                            let h = choose|h: int|
                                0 <= h < old_groups.len() && (#[trigger] old_groups[h]).0@
                                    == self.keys()[j].0;
                            assert(groups@[h] == old_groups[h]);
                        } else {
                            assert(groups@[old_groups.len() as int].0@ == self.keys()[j].0);
                        }
                    }
                },
            }
            i = i + 1;
        }
        assert(self.keys().len() == self.entries@.len());
        assert(self.keys().subrange(0, i as int) =~= self.keys());
        groups
    }

    /// The entry of `request`: the cached one, or else the one that `load` reads, which
    /// is then stored. `load` is called only on a miss; when it fails nothing is stored.
    pub fn get_or_load<F: FnOnce(&CacheRequest) -> Result<E, LoadError>>(
        &mut self,
        request: &CacheRequest,
        load: F,
    ) -> (r: Fetched<E>)
        requires
            old(self).wf(),
            load.requires((request,)),
        ensures
            final(self).wf(),
            match r {
                Fetched::Cached(e) => {
                    &&& old(self).cache().contains_key(request@)
                    &&& *e == old(self).cache()[request@]
                    &&& final(self).cache() == old(self).cache()
                    &&& final(self).keys() == old(self).keys()
                },
                Fetched::Loaded(e) => {
                    &&& !old(self).cache().contains_key(request@)
                    &&& load.ensures((request,), Ok::<E, LoadError>(*e))
                    &&& final(self).cache() == old(self).cache().insert(request@, *e)
                    &&& final(self).keys() == old(self).keys().push(request@)
                },
                Fetched::Failed(err) => {
                    &&& !old(self).cache().contains_key(request@)
                    &&& load.ensures((request,), Err::<E, LoadError>(err))
                    &&& final(self).cache() == old(self).cache()
                    &&& final(self).keys() == old(self).keys()
                },
            },
            final(self).token() == old(self).token(),
            final(self).basedir_view() == old(self).basedir_view(),
            final(self).metadata_url_view() == old(self).metadata_url_view(),
            final(self).hostname_view() == old(self).hostname_view(),
    {
        match self.lookup(request) {
            Some(e) => Fetched::Cached(e),
            None => {
                let loaded = load(request);
                match loaded {
                    Ok(entry) => match self.load_entry(request, Ok(entry)) {
                        Ok(e) => Fetched::Loaded(e),
                        Err(err) => Fetched::Failed(err),
                    },
                    Err(err) => Fetched::Failed(err),
                }
            },
        }
    }

    /// Completes a load of `request`'s entry with the outcome of reading its files.
    ///
    /// A loaded entry is stored and returned, unless an entry for the key was stored in
    /// the meantime: that one stays and is returned. A failed load stores nothing and
    /// passes its error on.
    pub fn load_entry(&mut self, request: &CacheRequest, loaded: Result<E, LoadError>) -> (r:
        Result<Arc<E>, LoadError>)
        requires
            old(self).wf(),
        ensures
            final(self).wf(),
            match loaded {
                Ok(entry) => {
                    &&& final(self).cache() == stored(old(self).cache(), request@, entry)
                    &&& r matches Ok(e) && *e == final(self).cache()[request@]
                    &&& final(self).keys() == if old(self).cache().contains_key(request@) {
                        old(self).keys()
                    } else {
                        old(self).keys().push(request@)
                    }
                },
                Err(err) => {
                    &&& final(self).cache() == old(self).cache()
                    &&& final(self).keys() == old(self).keys()
                    &&& r == Err::<Arc<E>, LoadError>(err)
                },
            },
            final(self).token() == old(self).token(),
            final(self).basedir_view() == old(self).basedir_view(),
            final(self).metadata_url_view() == old(self).metadata_url_view(),
            final(self).hostname_view() == old(self).hostname_view(),
    {
        match loaded {
            Err(err) => Err(err),
            Ok(entry) => {
                match self.lookup(request) {
                    Some(existing) => Ok(existing),
                    None => {
                        let shared = Arc::new(entry);
                        let ghost old_keys = self.keys();
                        let ghost cached = self.cached@.insert(request@, entry);
                        self.entries.push((request.copy(), shared.clone()));
                        self.cached = Ghost(cached);
                        proof {
                            assert(self.keys() =~= old_keys.push(request@));
                            old_keys.lemma_push_to_set_commute(request@);
                            assert(self.cached@.dom() =~= self.keys().to_set());
                            assert(!old_keys.contains(request@));
                            assert(self.keys().no_duplicates()) by {
                                assert forall|a: int, b: int|
                                    0 <= a < b < self.keys().len() implies self.keys()[a]
                                    != self.keys()[b] by {
                                    if b == old_keys.len() {
                                        assert(old_keys[a] == self.keys()[a]);
                                    }
                                }
                            }
                            assert forall|i: int| 0 <= i < self.entries@.len() implies self.cached@[
                                #[trigger] self.entries@[i].0@] == *self.entries@[i].1 by {
                                if i < old_keys.len() {
                                    assert(self.keys()[i] == old_keys[i]);
                                    assert(old_keys[i] != request@);
                                }
                            }
                        }
                        Ok(shared)
                    },
                }
            },
        }
    }
}

} // verus!
