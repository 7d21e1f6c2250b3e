use vstd::prelude::*;
use vstd::hash_map::StringHashMap;
use crate::model::{
    call_views, copy_calls, copy_symbols, symbol_views, CallEdge, CallEdgeView, Language,
    ParsedFile, Symbol, SymbolView,
};

verus! {

/// What the cache keeps of one file.
#[derive(Debug, Clone)]
pub struct CachedFile {
    pub hash: String,
    pub language: Language,
    pub symbols: Vec<Symbol>,
    pub calls: Vec<CallEdge>,
}

/// A cached file with its text fields as character sequences.
pub struct CachedFileView {
    pub hash: Seq<char>,
    pub language: Language,
    pub symbols: Seq<SymbolView>,
    pub calls: Seq<CallEdgeView>,
}

impl View for CachedFile {
    type V = CachedFileView;

    open spec fn view(&self) -> CachedFileView {
        CachedFileView {
            hash: self.hash@,
            language: self.language,
            symbols: symbol_views(self.symbols@),
            calls: call_views(self.calls@),
        }
    }
}

/// One file of the cache under its repo-relative path.
#[derive(Debug, Clone)]
pub struct CacheEntry {
    pub path: String,
    pub file: CachedFile,
}

impl View for CacheEntry {
    type V = (Seq<char>, CachedFileView);

    open spec fn view(&self) -> (Seq<char>, CachedFileView) {
        (self.path@, self.file@)
    }
}

/// Results of earlier runs, by repo-relative path, for incremental analysis.
#[derive(Debug, Clone)]
pub struct AnalysisCache {
    pub schema_version: String,
    pub root: String,
    pub files: Vec<CacheEntry>,
}

/// Index of the first entry whose path is `p`, or -1.
pub open spec fn index_of_path(entries: Seq<(Seq<char>, CachedFileView)>, p: Seq<char>) -> int
    decreases entries.len(),
{
    if entries.len() == 0 {
        -1
    } else if index_of_path(entries.drop_last(), p) >= 0 {
        index_of_path(entries.drop_last(), p)
    } else if entries.last().0 == p {
        entries.len() - 1
    } else {
        -1
    }
}

proof fn lemma_index_of_path(entries: Seq<(Seq<char>, CachedFileView)>, p: Seq<char>)
    ensures
        -1 <= index_of_path(entries, p) < entries.len(),
        index_of_path(entries, p) >= 0 ==> entries[index_of_path(entries, p)].0 == p,
        index_of_path(entries, p) >= 0 ==> forall|k: int| 0 <= k < index_of_path(entries, p) ==> #[trigger] entries[k].0 != p,
        index_of_path(entries, p) == -1 ==> forall|k: int| 0 <= k < entries.len() ==> #[trigger] entries[k].0 != p,
    decreases entries.len(),
{
    if entries.len() > 0 {
        lemma_index_of_path(entries.drop_last(), p);
        assert forall|k: int| 0 <= k < entries.len() - 1 implies #[trigger] entries[k] == entries.drop_last()[k] by {}
    }
}

impl AnalysisCache {
    /// The entries with their text fields as character sequences.
    pub open spec fn entries(&self) -> Seq<(Seq<char>, CachedFileView)> {
        self.files@.map_values(|e: CacheEntry| e@)
    }

    /// The paths of the entries.
    pub open spec fn paths(&self) -> Seq<Seq<char>> {
        self.files@.map_values(|e: CacheEntry| e.path@)
    }

    /// No two entries have the same path.
    pub open spec fn wf(&self) -> bool {
        forall|i: int, j: int| 0 <= i < j < self.files@.len() ==> (#[trigger] self.files@[i]).path@
            != (#[trigger] self.files@[j]).path@
    }

    /// The entry stored under path `p`, if any.
    pub open spec fn lookup(&self, p: Seq<char>) -> Option<CachedFileView> {
        let k = index_of_path(self.entries(), p);
        if k >= 0 {
            Some(self.entries()[k].1)
        } else {
            None
        }
    }

    /// An empty cache for the given schema version and root.
    pub fn new(schema_version: &str, root: &str) -> (r: AnalysisCache)
        ensures
            r.schema_version@ == schema_version@,
            r.root@ == root@,
            r.files@.len() == 0,
            r.wf(),
    {
        AnalysisCache {
            schema_version: schema_version.to_owned(),
            root: root.to_owned(),
            files: Vec::new(),
        }
    }

    /// Stores what was found in the file at `path`, replacing what was stored
    /// under that path before.
    pub fn upsert(&mut self, path: String, hash: String, language: Language, parsed: ParsedFile)
        requires
            old(self).wf(),
        ensures
            final(self).wf(),
            final(self).schema_version == old(self).schema_version,
            final(self).root == old(self).root,
            ({
                let k = index_of_path(old(self).entries(), path@);
                let e = (path@, CachedFileView {
                    hash: hash@,
                    language,
                    symbols: symbol_views(parsed.symbols@),
                    calls: call_views(parsed.calls@),
                });
                final(self).entries() == if k >= 0 {
                    old(self).entries().update(k, e)
                } else {
                    old(self).entries().push(e)
                }
            }),
    {
        let ghost old_entries = self.entries();
        proof {
            lemma_index_of_path(old_entries, path@);
            assert forall|k: int| 0 <= k < old_entries.len() implies #[trigger] old_entries[k].0
                == self.files@[k].path@ by {}
        }
        let mut i: usize = 0;
        while i < self.files.len()
            invariant
                i <= self.files@.len(),
                old_entries == self.entries(),
                self.wf(),
                self.files@ == old(self).files@,
                self.schema_version == old(self).schema_version,
                self.root == old(self).root,
                forall|k: int| 0 <= k < old_entries.len() ==> #[trigger] old_entries[k].0
                    == self.files@[k].path@,
                forall|k: int| 0 <= k < i ==> #[trigger] self.files@[k].path@ != path@,
            decreases self.files.len() - i,
        {
            if crate::text::text_eq(self.files[i].path.as_str(), path.as_str()) {
                proof {
                    lemma_index_of_path(old_entries, path@);
                    assert(old_entries[i as int].0 == path@);
                    let idx = index_of_path(old_entries, path@);
                    if idx >= 0 && idx < i {
                        assert(old_entries[idx].0 == self.files@[idx].path@);
                    }
                    assert(idx == i as int);
                }
                let entry = CacheEntry {
                    path,
                    file: CachedFile { hash, language, symbols: parsed.symbols, calls: parsed.calls },
                };
                self.files.set(i, entry);
                proof {
                    assert(self.entries() =~= old_entries.update(i as int, entry@));
                    assert forall|a: int, b: int| 0 <= a < b < self.files@.len() implies (#[trigger] self.files@[a]).path@
                        != (#[trigger] self.files@[b]).path@ by {
                        if a != i {
                            assert(self.files@[a] == old(self).files@[a]);
                        }
                        if b != i {
                            assert(self.files@[b] == old(self).files@[b]);
                        }
                    }
                }
                return;
            }
            i = i + 1;
        }
        proof {
            lemma_index_of_path(old_entries, path@);
            assert(index_of_path(old_entries, path@) == -1) by {
                if index_of_path(old_entries, path@) >= 0 {
                    assert(old_entries[index_of_path(old_entries, path@)].0 == self.files@[index_of_path(old_entries, path@)].path@);
                }
            }
        }
        let entry = CacheEntry {
            path,
            file: CachedFile { hash, language, symbols: parsed.symbols, calls: parsed.calls },
        };
        self.files.push(entry);
        proof {
            assert(self.entries() =~= old_entries.push(entry@));
        }
    }
}


proof fn lemma_index_of_path_same_paths(
    e1: Seq<(Seq<char>, CachedFileView)>,
    e2: Seq<(Seq<char>, CachedFileView)>,
    p: Seq<char>,
)
    requires
        e1.len() == e2.len(),
        forall|i: int| 0 <= i < e1.len() ==> (#[trigger] e1[i]).0 == e2[i].0,
    ensures
        index_of_path(e1, p) == index_of_path(e2, p),
    decreases e1.len(),
{
    if e1.len() > 0 {
        assert forall|i: int| 0 <= i < e1.len() - 1 implies (#[trigger] e1.drop_last()[i]).0 == e2.drop_last()[i].0 by {
            assert(e1.drop_last()[i] == e1[i]);
            assert(e2.drop_last()[i] == e2[i]);
        }
        lemma_index_of_path_same_paths(e1.drop_last(), e2.drop_last(), p);
    }
}

/// The first index of a path is an index of that path, and no earlier entry has it.
pub proof fn lemma_index_of_path_pub(entries: Seq<(Seq<char>, CachedFileView)>, p: Seq<char>)
    ensures
        -1 <= index_of_path(entries, p) < entries.len(),
        index_of_path(entries, p) >= 0 ==> entries[index_of_path(entries, p)].0 == p,
{
    lemma_index_of_path(entries, p);
}

/// A path with no first index is held by no entry.
pub proof fn lemma_index_of_path_absent(entries: Seq<(Seq<char>, CachedFileView)>, p: Seq<char>)
    requires
        index_of_path(entries, p) < 0,
    ensures
        forall|k: int| 0 <= k < entries.len() ==> #[trigger] entries[k].0 != p,
{
    lemma_index_of_path(entries, p);
}

/// The first index of a path depends only on the entries' paths.
pub proof fn lemma_index_of_path_same_paths_pub(
    e1: Seq<(Seq<char>, CachedFileView)>,
    e2: Seq<(Seq<char>, CachedFileView)>,
    p: Seq<char>,
)
    requires
        e1.len() == e2.len(),
        forall|i: int| 0 <= i < e1.len() ==> (#[trigger] e1[i]).0 == e2[i].0,
    ensures
        index_of_path(e1, p) == index_of_path(e2, p),
{
    lemma_index_of_path_same_paths(e1, e2, p);
}

/// Positions of the cache's entries by path, for lookups in constant time.
pub struct CacheIndex {
    pub positions: StringHashMap<usize>,
}

impl CacheIndex {
    /// The index gives, for every path of `entries`, its first position.
    pub open spec fn indexes(&self, entries: Seq<(Seq<char>, CachedFileView)>) -> bool {
        &&& forall|p: Seq<char>| #[trigger] self.positions@.contains_key(p) <==> index_of_path(entries, p) >= 0
        &&& forall|p: Seq<char>| #[trigger] self.positions@.contains_key(p) ==> self.positions@[p] as int
            == index_of_path(entries, p)
    }

    /// The index of a cache.
    pub fn build(cache: &AnalysisCache) -> (r: CacheIndex)
        ensures
            r.indexes(cache.entries()),
    {
        let ghost es = cache.entries();
        let mut positions: StringHashMap<usize> = StringHashMap::new();
        let mut i: usize = 0;
        while i < cache.files.len()
            invariant
                i <= cache.files@.len(),
                es == cache.entries(),
                forall|p: Seq<char>| #[trigger] positions@.contains_key(p) <==> index_of_path(es.subrange(0, i as int), p) >= 0,
                forall|p: Seq<char>| #[trigger] positions@.contains_key(p) ==> positions@[p] as int
                    == index_of_path(es.subrange(0, i as int), p),
            decreases cache.files.len() - i,
        {
            let ghost sub = es.subrange(0, i as int);
            assert(es.subrange(0, i + 1).drop_last() =~= sub);
            assert(es[i as int].0 == cache.files@[i as int].path@);
            let ghost m0 = positions@;
            if !positions.contains_key(cache.files[i].path.as_str()) {
                positions.insert(cache.files[i].path.clone(), i);
            }
            proof {
                let next = es.subrange(0, i + 1);
                assert(next.drop_last() == sub);
                assert(next.last() == es[i as int]);
                assert forall|q: Seq<char>| #[trigger] positions@.contains_key(q) <==> index_of_path(next, q) >= 0 by {
                    assert(index_of_path(next, q) == if index_of_path(sub, q) >= 0 {
                        index_of_path(sub, q)
                    } else if es[i as int].0 == q {
                        i as int
                    } else {
                        -1
                    });
                    assert(m0.contains_key(q) <==> index_of_path(sub, q) >= 0);
                    if m0.contains_key(q) {
                        assert(m0[q] as int == index_of_path(sub, q));
                    }
                }
                assert forall|q: Seq<char>| #[trigger] positions@.contains_key(q) implies positions@[q] as int
                    == index_of_path(next, q) by {
                    assert(index_of_path(next, q) == if index_of_path(sub, q) >= 0 {
                        index_of_path(sub, q)
                    } else if es[i as int].0 == q {
                        i as int
                    } else {
                        -1
                    });
                    assert(m0.contains_key(q) <==> index_of_path(sub, q) >= 0);
                    if m0.contains_key(q) {
                        assert(m0[q] as int == index_of_path(sub, q));
                    }
                }
            }
            i = i + 1;
        }
        assert(es.subrange(0, cache.files@.len() as int) =~= es);
        CacheIndex { positions }
    }
}

/// The cached symbols and calls for the file at `path`, when the cache holds
/// that path with the same hash and language.
pub fn cache_gate(
    cache: &AnalysisCache,
    index: &CacheIndex,
    path: &str,
    hash: &str,
    language: Language,
) -> (r: Option<ParsedFile>)
    requires
        index.indexes(cache.entries()),
    ensures
        r is Some <==> (match cache.lookup(path@) {
            Some(f) => f.hash == hash@ && f.language == language,
            None => false,
        }),
        r matches Some(p) ==> symbol_views(p.symbols@) == cache.lookup(path@)->0.symbols
            && call_views(p.calls@) == cache.lookup(path@)->0.calls,
{
    proof {
        lemma_index_of_path(cache.entries(), path@);
    }
    match index.positions.get(path) {
        Some(k) => {
            let k = *k;
            assert(cache.entries()[k as int] == cache.files@[k as int]@);
            let f = &cache.files[k].file;
            if crate::text::text_eq(f.hash.as_str(), hash) && f.language == language {
                Some(ParsedFile { symbols: copy_symbols(&f.symbols), calls: copy_calls(&f.calls) })
            } else {
                None
            }
        },
        None => None,
    }
}

} // verus!
