//! The graph locator's cache: which dimension graphs of which scopes are
//! loaded, under their cache keys. Reading and writing the files is left to
//! the caller, which hands loaded graphs in and saves the ones named here.

use vstd::prelude::*;
use crate::graph::{DimensionGraph, GraphScope};
use crate::text::{has_prefix, text_eq};

verus! {

/// A loaded graph under its cache key.
#[derive(Debug)]
pub struct CachedGraph {
    pub key: String,
    pub graph: DimensionGraph,
}

/// The loaded graphs, and the dimensions that have a processor.
#[derive(Debug)]
pub struct GraphLocator {
    pub data_dir: String,
    pub cache: Vec<CachedGraph>,
    pub processors: Vec<String>,
}

pub open spec fn keys_unique(c: Seq<CachedGraph>) -> bool {
    forall|a: int, b: int| 0 <= a < b < c.len() ==> c[a].key@ != c[b].key@
}

pub open spec fn has_key(c: Seq<CachedGraph>, key: Seq<char>) -> bool {
    exists|i: int| 0 <= i < c.len() && c[i].key@ == key
}

pub open spec fn not_owned(prefix: Seq<char>) -> spec_fn(CachedGraph) -> bool {
    |g: CachedGraph| !has_prefix(g.key@, prefix)
}

fn find_key(c: &Vec<CachedGraph>, key: &str) -> (r: Option<usize>)
    ensures
        r matches Some(i) ==> i < c@.len() && c@[i as int].key@ == key@,
        r is None ==> !has_key(c@, key@),
{
    let mut i: usize = 0;
    while i < c.len()
        invariant
            i <= c@.len(),
            forall|k: int| 0 <= k < i ==> c@[k].key@ != key@,
        decreases c@.len() - i,
    {
        if text_eq(c[i].key.as_str(), key) {
            return Some(i);
        }
        i = i + 1;
    }
    None
}

impl GraphLocator {
    pub open spec fn wf(&self) -> bool {
        keys_unique(self.cache@)
    }

    pub fn new(data_dir: String) -> (r: GraphLocator)
        ensures
            r.wf(),
            r.data_dir == data_dir,
            r.cache@.len() == 0,
            r.processors@.len() == 0,
    {
        GraphLocator { data_dir, cache: Vec::new(), processors: Vec::new() }
    }

    /// Note that `dimension` has a processor.
    pub fn register_processor(&mut self, dimension: &str)
        ensures
            exists|i: int|
                0 <= i < final(self).processors@.len() && final(self).processors@[i]@ == dimension@,
            final(self).cache == old(self).cache,
    {
        let mut i: usize = 0;
        while i < self.processors.len()
            invariant
                i <= self.processors@.len(),
                self.cache == old(self).cache,
            decreases self.processors@.len() - i,
        {
            if text_eq(self.processors[i].as_str(), dimension) {
                return;
            }
            i = i + 1;
        }
        self.processors.push(String::from_str(dimension));
        assert(self.processors@[self.processors@.len() - 1]@ == dimension@);
    }

    /// Does `dimension` have a processor?
    pub fn processor(&self, dimension: &str) -> (r: bool)
        ensures
            r == exists|i: int|
                0 <= i < self.processors@.len() && self.processors@[i]@ == dimension@,
    {
        let mut i: usize = 0;
        while i < self.processors.len()
            invariant
                i <= self.processors@.len(),
                forall|k: int| 0 <= k < i ==> self.processors@[k]@ != dimension@,
            decreases self.processors@.len() - i,
        {
            if text_eq(self.processors[i].as_str(), dimension) {
                return true;
            }
            i = i + 1;
        }
        false
    }

    /// The file of a scope's dimension graph.
    pub fn graph_path(&self, scope: &GraphScope, dimension: &str) -> (r: String)
        ensures
            r@ == scope.dir_of(self.data_dir@) + "/"@ + dimension@ + ".json"@,
    {
        let mut r = scope.storage_dir(self.data_dir.as_str());
        r.append("/");
        r.append(dimension);
        r.append(".json");
        r
    }

    /// The cache index of a scope's dimension graph, if it is loaded.
    pub fn cached(&self, scope: &GraphScope, dimension: &str) -> (r: Option<usize>)
        ensures
            r matches Some(i) ==> i < self.cache@.len() && self.cache@[i as int].key@
                == scope.key_of(dimension@),
            r is None ==> !has_key(self.cache@, scope.key_of(dimension@)),
    {
        let key = scope.cache_key(dimension);
        find_key(&self.cache, key.as_str())
    }

    /// The cache index of a scope's dimension graph, putting it in the cache
    /// first when it is not there: the graph read from its file when there is
    /// one (`loaded`), else an empty graph that will be saved to that file.
    pub fn get(&mut self, scope: &GraphScope, dimension: &str, loaded: Option<DimensionGraph>) -> (r:
        usize)
        requires
            old(self).wf(),
        ensures
            final(self).wf(),
            r < final(self).cache@.len(),
            final(self).cache@[r as int].key@ == scope.key_of(dimension@),
            has_key(old(self).cache@, scope.key_of(dimension@)) ==> final(self).cache@ == old(
                self,
            ).cache@,
            !has_key(old(self).cache@, scope.key_of(dimension@)) ==> {
                &&& final(self).cache@.drop_last() == old(self).cache@
                &&& r == old(self).cache@.len()
                &&& loaded is None ==> final(self).cache@[r as int].graph.nodes@.len() == 0
                    && final(self).cache@[r as int].graph.edges@.len() == 0
                    && (final(self).cache@[r as int].graph.storage_path matches Some(p) && p@
                    == scope.dir_of(old(self).data_dir@) + "/"@ + dimension@ + ".json"@)
            },
            final(self).data_dir == old(self).data_dir,
    {
        match self.cached(scope, dimension) {
            Some(i) => i,
            None => {
                let graph = match loaded {
                    Some(g) => g,
                    None => {
                        let mut g = DimensionGraph::new(dimension);
                        let path = self.graph_path(scope, dimension);
                        g.set_storage_path(path);
                        g
                    },
                };
                let key = scope.cache_key(dimension);
                let ghost before = self.cache@;
                self.cache.push(CachedGraph { key, graph });
                proof {
                    assert(self.cache@.drop_last() =~= before);
                    assert forall|a: int, b: int| 0 <= a < b < self.cache@.len() implies self.cache@[a].key@
                        != self.cache@[b].key@ by {
                        if b < before.len() {
                            assert(self.cache@[a] == before[a] && self.cache@[b] == before[b]);
                        } else {
                            assert(self.cache@[a] == before[a]);
                        }
                    }
                }
                self.cache.len() - 1
            },
        }
    }

    /// Forget a scope's dimension graph.
    pub fn delete(&mut self, scope: &GraphScope, dimension: &str)
        requires
            old(self).wf(),
        ensures
            final(self).wf(),
            !has_key(final(self).cache@, scope.key_of(dimension@)),
            !has_key(old(self).cache@, scope.key_of(dimension@)) ==> final(self).cache@ == old(
                self,
            ).cache@,
            has_key(old(self).cache@, scope.key_of(dimension@)) ==> exists|i: int|
                0 <= i < old(self).cache@.len() && old(self).cache@[i].key@ == scope.key_of(
                    dimension@,
                ) && final(self).cache@ == old(self).cache@.remove(i),
            final(self).data_dir == old(self).data_dir,
            final(self).processors == old(self).processors,
    {
        match self.cached(scope, dimension) {
            Some(i) => {
                let ghost before = self.cache@;
                let ghost key = scope.key_of(dimension@);
                self.cache.remove(i);
                proof {
                    assert forall|a: int, b: int| 0 <= a < b < self.cache@.len() implies self.cache@[a].key@
                        != self.cache@[b].key@ by {
                        let a0 = if a < i { a } else { a + 1 };
                        let b0 = if b < i { b } else { b + 1 };
                        assert(self.cache@[a] == before[a0] && self.cache@[b] == before[b0]);
                    }
                    if has_key(self.cache@, key) {
                        let k = choose|k: int| 0 <= k < self.cache@.len() && self.cache@[k].key@ == key;
                        let k0 = if k < i { k } else { k + 1 };
                        assert(self.cache@[k] == before[k0]);
                    }
                }
            },
            None => {},
        }
    }

    /// Forget every graph of `scope`.
    pub fn delete_all(&mut self, scope: &GraphScope)
        requires
            old(self).wf(),
        ensures
            final(self).wf(),
            final(self).cache@ == old(self).cache@.filter(not_owned(scope.prefix_of())),
            forall|i: int|
                0 <= i < final(self).cache@.len() ==> !has_prefix(
                    #[trigger] final(self).cache@[i].key@,
                    scope.prefix_of(),
                ),
    {
        let prefix = scope.key_prefix();
        let mut all: Vec<CachedGraph> = Vec::new();
        std::mem::swap(&mut all, &mut self.cache);
        let ghost start = all@;
        let mut kept: Vec<CachedGraph> = Vec::new();
        while all.len() > 0
            invariant
                start == old(self).cache@,
                keys_unique(start),
                prefix@ == scope.prefix_of(),
                all@.len() <= start.len(),
                all@ == start.subrange(start.len() - all@.len(), start.len() as int),
                kept@ == start.subrange(0, start.len() - all@.len()).filter(
                    not_owned(scope.prefix_of()),
                ),
                forall|k: int| 0 <= k < kept@.len() ==> start.contains(#[trigger] kept@[k]),
                forall|k: int|
                    0 <= k < kept@.len() ==> !has_prefix(#[trigger] kept@[k].key@, scope.prefix_of()),
                keys_unique(kept@),
                forall|k: int, m: int|
                    0 <= k < kept@.len() && 0 <= m < all@.len() ==> kept@[k].key@ != all@[m].key@,
            decreases all@.len(),
        {
            let ghost done = start.len() - all@.len();
            let ghost rest = all@;
            let g = all.remove(0);
            proof {
                assert(g == start[done]);
                assert(start.subrange(0, done + 1) =~= start.subrange(0, done).push(start[done]));
                start.subrange(0, done).lemma_filter_push(start[done], not_owned(scope.prefix_of()));
                assert(all@ =~= start.subrange(done + 1, start.len() as int));
                assert forall|k: int, m: int| 0 <= k < kept@.len() && 0 <= m < all@.len() implies kept@[k].key@
                    != all@[m].key@ by {
                    assert(all@[m] == rest[m + 1]);
                }
            }
            if !starts_with_key(&g, prefix.as_str()) {
                let ghost before = kept@;
                kept.push(g);
                proof {
                    assert forall|k: int| 0 <= k < kept@.len() implies start.contains(
                        #[trigger] kept@[k],
                    ) by {
                        if k < before.len() {
                            assert(kept@[k] == before[k]);
                        } else {
                            assert(start[done] == kept@[k]);
                        }
                    }
                    assert forall|a: int, b: int| 0 <= a < b < kept@.len() implies kept@[a].key@
                        != kept@[b].key@ by {
                        if b < before.len() {
                            assert(kept@[a] == before[a] && kept@[b] == before[b]);
                        } else {
                            assert(kept@[a] == before[a]);
                            assert(rest[0] == kept@[b]);
                        }
                    }
                    assert forall|k: int, m: int| 0 <= k < kept@.len() && 0 <= m < all@.len() implies kept@[k].key@
                        != all@[m].key@ by {
                        assert(all@[m] == rest[m + 1]);
                        if k < before.len() {
                            assert(kept@[k] == before[k]);
                        } else {
                            assert(kept@[k] == rest[0]);
                            assert(start[done] == rest[0]);
                            assert(start[done + 1 + m] == rest[m + 1]);
                        }
                    }
                }
            }
        }
        assert(start.subrange(0, start.len() as int) =~= start);
        self.cache = kept;
    }

    /// The cache indices of the graphs of `scope`, to be saved.
    pub fn to_flush(&self, scope: &GraphScope) -> (r: Vec<usize>)
        ensures
            forall|k: int|
                0 <= k < r@.len() ==> r@[k] < self.cache@.len() && has_prefix(
                    self.cache@[r@[k] as int].key@,
                    scope.prefix_of(),
                ),
            forall|i: int|
                0 <= i < self.cache@.len() && has_prefix(self.cache@[i].key@, scope.prefix_of())
                    ==> r@.contains(i as usize),
    {
        let prefix = scope.key_prefix();
        let mut out: Vec<usize> = Vec::new();
        let mut i: usize = 0;
        while i < self.cache.len()
            invariant
                i <= self.cache@.len(),
                prefix@ == scope.prefix_of(),
                forall|k: int|
                    0 <= k < out@.len() ==> out@[k] < self.cache@.len() && has_prefix(
                        self.cache@[out@[k] as int].key@,
                        scope.prefix_of(),
                    ),
                forall|j: int|
                    0 <= j < i && has_prefix(self.cache@[j].key@, scope.prefix_of())
                        ==> out@.contains(j as usize),
            decreases self.cache@.len() - i,
        {
            if starts_with_key(&self.cache[i], prefix.as_str()) {
                let ghost before = out@;
                out.push(i);
                proof {
                    assert forall|j: int|
                        0 <= j < i + 1 && has_prefix(self.cache@[j].key@, scope.prefix_of())
                            implies out@.contains(j as usize) by {
                        if j < i {
                            let k = choose|k: int| 0 <= k < before.len() && before[k] == j as usize;
                            assert(out@[k] == before[k]);
                        } else {
                            assert(out@[before.len() as int] == i);
                        }
                    }
                }
            }
            i = i + 1;
        }
        out
    }
}

fn starts_with_key(g: &CachedGraph, prefix: &str) -> (r: bool)
    ensures
        r == has_prefix(g.key@, prefix@),
{
    crate::text::starts_with(g.key.as_str(), prefix)
}

} // verus!
