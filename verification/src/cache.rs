//! The cache index and the fetch decision.
//!
//! The cache directory is listed once at startup; each entry's base name
//! is read as a video identifier. The index maps identifiers to local
//! paths, a later entry winning over an earlier one with the same name,
//! and is read-only for the rest of the run. A fetch either reuses the
//! indexed path or decides to download; after a download the definitive
//! path is the first fresh listing entry whose base name is the
//! identifier.

use vstd::prelude::*;

use crate::strutil::str_eq;
use crate::ClipError;

verus! {

/// One listing entry of the cache directory: a file's base name and its
/// full path.
pub struct CacheEntry {
    pub id: String,
    pub path: String,
}

impl Clone for CacheEntry {
    fn clone(&self) -> (r: Self)
        ensures
            r == *self,
    {
        CacheEntry { id: self.id.clone(), path: self.path.clone() }
    }
}

/// The abstract value of a listing entry.
pub open spec fn entry_view(e: CacheEntry) -> (Seq<char>, Seq<char>) {
    (e.id@, e.path@)
}

/// The mapping that a sequence of entries builds, a later entry winning.
pub open spec fn spec_cache_map(es: Seq<(Seq<char>, Seq<char>)>) -> Map<Seq<char>, Seq<char>>
    decreases es.len(),
{
    if es.len() == 0 {
        Map::<Seq<char>, Seq<char>>::empty()
    } else {
        spec_cache_map(es.drop_last()).insert(es.last().0, es.last().1)
    }
}

/// An entry whose identifier no later entry repeats gives the map's value.
pub proof fn lemma_cache_map_hit(es: Seq<(Seq<char>, Seq<char>)>, i: int)
    requires
        0 <= i < es.len(),
        forall|j: int| i < j < es.len() ==> (#[trigger] es[j]).0 != es[i].0,
    ensures
        spec_cache_map(es).contains_key(es[i].0),
        spec_cache_map(es)[es[i].0] == es[i].1,
    decreases es.len(),
{
    if i == es.len() - 1 {
    } else {
        lemma_cache_map_hit(es.drop_last(), i);
    }
}

/// An identifier that no entry carries is not in the map.
pub proof fn lemma_cache_map_miss(es: Seq<(Seq<char>, Seq<char>)>, id: Seq<char>)
    requires
        forall|j: int| 0 <= j < es.len() ==> (#[trigger] es[j]).0 != id,
    ensures
        !spec_cache_map(es).contains_key(id),
    decreases es.len(),
{
    if es.len() > 0 {
        lemma_cache_map_miss(es.drop_last(), id);
    }
}

/// The read-only index from video identifier to locally cached path.
pub struct CacheIndex {
    pub entries: Vec<CacheEntry>,
}

impl CacheIndex {
    /// The mapping this index answers from.
    pub open spec fn index(&self) -> Map<Seq<char>, Seq<char>> {
        spec_cache_map(self.entries@.map_values(|e: CacheEntry| entry_view(e)))
    }

    /// The locally cached path of `id`, if one is indexed.
    pub fn get(&self, id: &str) -> (r: Option<&String>)
        ensures
            match r {
                Some(p) => self.index().contains_key(id@) && p@ == self.index()[id@],
                None => !self.index().contains_key(id@),
            },
    {
        let ghost evs = self.entries@.map_values(|e: CacheEntry| entry_view(e));
        let mut i: usize = self.entries.len();
        while i > 0
            invariant
                i <= self.entries@.len(),
                evs == self.entries@.map_values(|e: CacheEntry| entry_view(e)),
                forall|j: int| i <= j < evs.len() ==> (#[trigger] evs[j]).0 != id@,
            decreases i,
        {
            i -= 1;
            if str_eq(self.entries[i].id.as_str(), id) {
                proof {
                    lemma_cache_map_hit(evs, i as int);
                }
                return Some(&self.entries[i].path);
            }
        }
        proof {
            lemma_cache_map_miss(evs, id@);
        }
        None
    }

    /// Whether `id` is indexed.
    pub fn contains(&self, id: &str) -> (r: bool)
        ensures
            r == self.index().contains_key(id@),
    {
        self.get(id).is_some()
    }
}

/// Builds the index from the startup listing of the cache directory; a
/// missing or unreadable directory is an empty listing, not an error.
pub fn check_cache(entries: Vec<CacheEntry>) -> (r: CacheIndex)
    ensures
        r.index() == spec_cache_map(entries@.map_values(|e: CacheEntry| entry_view(e))),
{
    CacheIndex { entries }
}

/// The path of the first listing entry whose base name is `id`, after a
/// download; no such entry means the download left no usable file.
pub fn check_folder(entries: &Vec<CacheEntry>, id: &str) -> (r: Result<String, ClipError>)
    ensures
        match r {
            Ok(p) => exists|i: int|
                0 <= i < entries@.len() && (#[trigger] entries@[i]).id@ == id@ && p@
                    == entries@[i].path@ && (forall|j: int|
                    0 <= j < i ==> (#[trigger] entries@[j]).id@ != id@),
            Err(e) => e == ClipError::VideoNotFound && (forall|j: int|
                0 <= j < entries@.len() ==> (#[trigger] entries@[j]).id@ != id@),
        },
{
    let ghost evs = entries@.map_values(|e: CacheEntry| entry_view(e));
    let mut i: usize = 0;
    while i < entries.len()
        invariant
            i <= entries@.len(),
            evs == entries@.map_values(|e: CacheEntry| entry_view(e)),
            forall|j: int| 0 <= j < i ==> (#[trigger] evs[j]).0 != id@,
        decreases entries@.len() - i,
    {
        if str_eq(entries[i].id.as_str(), id) {
            proof {
                assert forall|j: int| 0 <= j < i implies (#[trigger] entries@[j]).id@ != id@ by {
                    assert(evs[j].0 == entries@[j].id@);
                }
                assert(entries@[i as int].id@ == id@);
            }
            return Ok(entries[i].path.clone());
        }
        i += 1;
    }
    proof {
        assert forall|j: int| 0 <= j < entries@.len() implies (#[trigger] entries@[j]).id@
            != id@ by {
            assert(evs[j].0 == entries@[j].id@);
        }
    }
    Err(ClipError::VideoNotFound)
}

/// How one video is resolved: reuse of the indexed local path, or a fresh
/// download into the cache directory.
pub enum FetchPlan {
    /// The video is cached here; only metadata is still fetched.
    Reuse(String),
    /// The video is not cached and must be downloaded.
    Download,
}

/// Decides reuse against download from the read-only index alone.
pub fn plan_fetch(id: &str, cache: &CacheIndex) -> (r: FetchPlan)
    ensures
        match r {
            FetchPlan::Reuse(p) => cache.index().contains_key(id@) && p@ == cache.index()[id@],
            FetchPlan::Download => !cache.index().contains_key(id@),
        },
{
    match cache.get(id) {
        Some(p) => FetchPlan::Reuse(p.clone()),
        None => FetchPlan::Download,
    }
}

} // verus!
