use vstd::prelude::*;

use crate::text::{owned, text_eq};

verus! {

broadcast use vstd::seq::group_seq_axioms, vstd::set::group_set_axioms, vstd::seq_lib::group_seq_properties;

/// Loaded files keyed by canonical path. Each path is decoded at most once
/// per session: a path whose decode failed is remembered and not decoded
/// again.
pub struct FileCache<T> {
    entries: Vec<(String, T)>,
    failed: Vec<String>,
    tried: Ghost<Set<Seq<char>>>,
}

/// How many decodes a run of loads costs, starting from the paths in
/// `known`: a load decodes exactly when its path was not tried yet, and the
/// path is tried afterwards. This is what a run of `ensure_loaded` calls
/// does, starting from `tried()` (see `lemma_decode_count`).
pub open spec fn decodes(known: Set<Seq<char>>, loads: Seq<Seq<char>>) -> nat
    decreases loads.len(),
{
    if loads.len() == 0 {
        0
    } else {
        let p = loads[0];
        (if known.contains(p) {
            0nat
        } else {
            1nat
        }) + decodes(known.insert(p), loads.drop_first())
    }
}

impl<T> FileCache<T> {
    /// No path appears twice among the loaded files, and the tried paths
    /// are the loaded ones and the failed ones.
    pub closed spec fn wf(&self) -> bool {
        &&& forall|i: int, j: int|
            0 <= i < j < self.entries@.len() ==> (#[trigger] self.entries@[i]).0@ != (
            #[trigger] self.entries@[j]).0@
        &&& self.tried@.finite()
        &&& forall|p: Seq<char>|
            #[trigger] self.tried@.contains(p) <==> (self.files().contains_key(p) || exists|i: int|
                0 <= i < self.failed@.len() && self.failed@[i]@ == p)
    }

    /// The paths whose decode was attempted, successfully or not.
    pub closed spec fn tried(&self) -> Set<Seq<char>> {
        self.tried@
    }

    /// The set of tried paths is finite.
    pub proof fn lemma_tried_finite(&self)
        requires
            self.wf(),
        ensures
            self.tried().finite(),
    {
    }

    /// The cached files by path.
    pub closed spec fn files(&self) -> Map<Seq<char>, T> {
        Map::new(
            |p: Seq<char>| exists|i: int| 0 <= i < self.entries@.len() && self.entries@[i].0@ == p,
            |p: Seq<char>|
                self.entries@[choose|i: int|
                    0 <= i < self.entries@.len() && self.entries@[i].0@ == p].1,
        )
    }

    /// An empty cache.
    pub fn new() -> (r: FileCache<T>)
        ensures
            r.wf(),
            r.files() == Map::<Seq<char>, T>::empty(),
            r.tried() == Set::<Seq<char>>::empty(),
    {
        let r = FileCache { entries: Vec::new(), failed: Vec::new(), tried: Ghost(Set::empty()) };
        assert(r.files() =~= Map::<Seq<char>, T>::empty());
        r
    }

    fn failed_before(&self, path: &str) -> (r: bool)
        ensures
            r == exists|i: int| 0 <= i < self.failed@.len() && self.failed@[i]@ == path@,
    {
        let mut i: usize = 0;
        while i < self.failed.len()
            invariant
                0 <= i <= self.failed@.len(),
                forall|j: int| 0 <= j < i ==> self.failed@[j]@ != path@,
            decreases self.failed@.len() - i,
        {
            if text_eq(self.failed[i].as_str(), path) {
                return true;
            }
            i += 1;
        }
        false
    }

    fn position(&self, path: &str) -> (r: Option<usize>)
        ensures
            r matches Some(i) ==> i < self.entries@.len() && self.entries@[i as int].0@ == path@,
            r is None ==> forall|i: int|
                0 <= i < self.entries@.len() ==> self.entries@[i].0@ != path@,
    {
        let mut i: usize = 0;
        while i < self.entries.len()
            invariant
                0 <= i <= self.entries@.len(),
                forall|j: int| 0 <= j < i ==> self.entries@[j].0@ != path@,
            decreases self.entries@.len() - i,
        {
            if text_eq(self.entries[i].0.as_str(), path) {
                return Some(i);
            }
            i += 1;
        }
        None
    }

    /// The file cached under `path`, if it was loaded before.
    pub fn get(&self, path: &str) -> (r: Option<&T>)
        requires
            self.wf(),
        ensures
            r is Some <==> self.files().contains_key(path@),
            r matches Some(f) ==> *f == self.files()[path@],
    {
        match self.position(path) {
            Some(i) => {
                let ghost k = choose|j: int|
                    0 <= j < self.entries@.len() && self.entries@[j].0@ == path@;
                assert(self.files().contains_key(path@));
                assert(k == i);
                Some(&self.entries[i].1)
            },
            None => None,
        }
    }

    /// Caches a freshly decoded file under a path not tried yet.
    fn insert(&mut self, path: String, file: T)
        requires
            old(self).wf(),
            !old(self).tried().contains(path@),
        ensures
            final(self).wf(),
            final(self).files() == old(self).files().insert(path@, file),
            final(self).tried() == old(self).tried().insert(path@),
    {
        let ghost old_files = self.files();
        let ghost n = self.entries@.len();
        let ghost p = path@;
        self.entries.push((path, file));
        self.tried = Ghost(self.tried@.insert(p));
        proof {
            assert forall|q: Seq<char>| #[trigger] self.files().contains_key(q) == old_files.insert(
                p,
                file,
            ).contains_key(q) by {
                if q != p && self.files().contains_key(q) {
                    let i = choose|i: int| 0 <= i < self.entries@.len() && self.entries@[i].0@ == q;
                    assert(i < n);
                    assert(old_files.contains_key(q));
                }
                if old_files.contains_key(q) {
                    let i = choose|i: int|
                        0 <= i < old(self).entries@.len() && old(self).entries@[i].0@ == q;
                    assert(self.entries@[i] == old(self).entries@[i]);
                }
                if q == p {
                    assert(self.entries@[n as int].0@ == p);
                }
            }
            assert forall|q: Seq<char>| #[trigger] self.files().contains_key(q) implies self.files()[q]
                == old_files.insert(p, file)[q] by {
                let i = choose|i: int| 0 <= i < self.entries@.len() && self.entries@[i].0@ == q;
                if q == p {
                    assert(i == n);
                } else {
                    let k = choose|k: int|
                        0 <= k < old(self).entries@.len() && old(self).entries@[k].0@ == q;
                    assert(self.entries@[k] == old(self).entries@[k]);
                    assert(i == k);
                }
            }
            assert(self.files() =~= old_files.insert(p, file));
            assert forall|i: int, j: int|
                0 <= i < j < self.entries@.len() implies (#[trigger] self.entries@[i]).0@ != (
                #[trigger] self.entries@[j]).0@ by {
                if j == n {
                    assert(old_files.contains_key(self.entries@[i].0@));
                }
            }
            assert forall|q: Seq<char>| #[trigger] self.tried@.contains(q) <==> (
            self.files().contains_key(q) || exists|i: int|
                0 <= i < self.failed@.len() && self.failed@[i]@ == q) by {
                assert(self.files().contains_key(q) == old_files.insert(p, file).contains_key(q));
                assert(self.failed@ == old(self).failed@);
                assert(old_files == old(self).files());
                assert(old(self).tried@.contains(q) <==> (old_files.contains_key(q) || exists|i: int|
                    0 <= i < self.failed@.len() && self.failed@[i]@ == q));
            }
        }
    }

    /// Makes sure `path` was tried, calling `load` to decode it only when
    /// no earlier load tried it. `Ok(true)`: decoded now; `Ok(false)`:
    /// cached before; `Err(Some(e))`: decoding failed now; `Err(None)`:
    /// decoding failed before and is not tried again.
    pub fn ensure_loaded<E, F: FnOnce() -> Result<T, E>>(&mut self, path: &str, load: F) -> (r: Result<
        bool,
        Option<E>,
    >)
        requires
            old(self).wf(),
            load.requires(()),
        ensures
            final(self).wf(),
            final(self).tried() == old(self).tried().insert(path@),
            (r == Ok::<bool, Option<E>>(true) || r matches Err(Some(_))) <==> !old(
                self,
            ).tried().contains(path@),
            old(self).files().contains_key(path@) ==> r == Ok::<bool, Option<E>>(false)
                && final(self).files() == old(self).files(),
            old(self).tried().contains(path@) && !old(self).files().contains_key(path@) ==> r
                == Err::<bool, Option<E>>(None) && final(self).files() == old(self).files(),
            !old(self).tried().contains(path@) ==> match r {
                Ok(decoded) => decoded && exists|f: T|
                    #![trigger old(self).files().insert(path@, f)]
                    load.ensures((), Ok::<T, E>(f)) && final(self).files() == old(self).files().insert(
                        path@,
                        f,
                    ),
                Err(Some(e)) => load.ensures((), Err::<T, E>(e)) && final(self).files() == old(
                    self,
                ).files(),
                Err(None) => false,
            },
    {
        if self.position(path).is_some() {
            assert(self.tried@.contains(path@));
            assert(self.tried@.insert(path@) =~= self.tried@);
            return Ok(false);
        }
        if self.failed_before(path) {
            assert(self.tried@.contains(path@));
            assert(self.tried@.insert(path@) =~= self.tried@);
            return Err(None);
        }
        proof {
            assert(!self.files().contains_key(path@));
            assert(!self.tried@.contains(path@));
        }
        match load() {
            Ok(f) => {
                self.insert(owned(path), f);
                Ok(true)
            },
            Err(e) => {
                let ghost old_files = self.files();
                let ghost p = path@;
                self.failed.push(owned(path));
                self.tried = Ghost(self.tried@.insert(p));
                proof {
                    assert(self.files() =~= old_files);
                    assert forall|q: Seq<char>| #[trigger] self.tried@.contains(q) <==> (
                    self.files().contains_key(q) || exists|i: int|
                        0 <= i < self.failed@.len() && self.failed@[i]@ == q) by {
                        if q == p {
                            assert(self.failed@[self.failed@.len() - 1]@ == p);
                        }
                        if exists|i: int| 0 <= i < self.failed@.len() && self.failed@[i]@ == q {
                            let i = choose|i: int| 0 <= i < self.failed@.len() && self.failed@[i]@ == q;
                            if i < old(self).failed@.len() {
                                assert(old(self).failed@[i] == self.failed@[i]);
                            }
                        }
                        if old(self).tried@.contains(q) && !self.files().contains_key(q) {
                            let i = choose|i: int|
                                0 <= i < old(self).failed@.len() && old(self).failed@[i]@ == q;
                            assert(self.failed@[i] == old(self).failed@[i]);
                        }
                    }
                }
                Err(Some(e))
            },
        }
    }

    /// How many files are cached.
    pub fn len(&self) -> (r: usize)
        requires
            self.wf(),
        ensures
            r == self.files().len(),
    {
        proof {
            self.lemma_len();
        }
        self.entries.len()
    }

    proof fn lemma_len(&self)
        requires
            self.wf(),
        ensures
            self.files().dom().finite(),
            self.files().len() == self.entries@.len(),
    {
        let keys = self.entries@.map_values(|e: (String, T)| e.0@);
        assert(keys.no_duplicates()) by {
            assert forall|i: int, j: int|
                0 <= i < keys.len() && 0 <= j < keys.len() && i != j implies keys[i] != keys[j] by {
                if i < j {
                    assert(self.entries@[i].0@ != self.entries@[j].0@);
                } else {
                    assert(self.entries@[j].0@ != self.entries@[i].0@);
                }
            }
        }
        keys.unique_seq_to_set();
        assert forall|q: Seq<char>| #[trigger] self.files().dom().contains(q) == keys.to_set().contains(q) by {
            if keys.to_set().contains(q) {
                let i = choose|i: int| 0 <= i < keys.len() && keys[i] == q;
                assert(self.entries@[i].0@ == q);
            }
            if self.files().dom().contains(q) {
                let i = choose|i: int| 0 <= i < self.entries@.len() && self.entries@[i].0@ == q;
                assert(keys[i] == q);
            }
        }
        assert(self.files().dom() =~= keys.to_set());
    }
}

/// Counting the decodes of a run of `ensure_loaded` calls: if each call
/// decodes exactly when its path was not tried before it, and adds that path
/// to the tried ones, as `ensure_loaded` states, the run decodes
/// `decodes(tried[0], loads)` times.
pub proof fn lemma_decode_count(
    tried: Seq<Set<Seq<char>>>,
    loads: Seq<Seq<char>>,
    decoded: Seq<bool>,
)
    requires
        tried.len() == loads.len() + 1,
        decoded.len() == loads.len(),
        forall|k: int|
            0 <= k < loads.len() ==> tried[k + 1] == tried[k].insert(#[trigger] loads[k])
                && decoded[k] == !tried[k].contains(loads[k]),
    ensures
        decoded.filter(|d: bool| d).len() == decodes(tried[0], loads),
    decreases loads.len(),
{
    reveal(Seq::filter);
    if loads.len() > 0 {
        let t = tried.drop_first();
        let l = loads.drop_first();
        let d = decoded.drop_first();
        assert forall|k: int| 0 <= k < l.len() implies t[k + 1] == t[k].insert(#[trigger] l[k])
            && d[k] == !t[k].contains(l[k]) by {
            assert(l[k] == loads[k + 1]);
        }
        assert(loads[0] == loads[0]);
        lemma_decode_count(t, l, d);
        lemma_filter_first(decoded);
    }
}

proof fn lemma_filter_first(s: Seq<bool>)
    requires
        s.len() > 0,
    ensures
        s.filter(|d: bool| d).len() == (if s[0] {
            1int
        } else {
            0int
        }) + s.drop_first().filter(|d: bool| d).len(),
    decreases s.len(),
{
    reveal(Seq::filter);
    if s.len() > 1 {
        lemma_filter_first(s.drop_last());
        assert(s.drop_last().drop_first() =~= s.drop_first().drop_last());
    } else {
        assert(s.drop_last() =~= Seq::<bool>::empty());
        assert(s.drop_first() =~= Seq::<bool>::empty());
    }
}

/// Loading through the cache decodes each path at most once: a run of loads
/// costs exactly one decode per distinct path that was not tried at the
/// start, so loading the same path twice decodes it once, whether or not
/// that decode succeeded.
pub proof fn lemma_one_decode_per_path(known: Set<Seq<char>>, loads: Seq<Seq<char>>)
    requires
        known.finite(),
    ensures
        decodes(known, loads) == loads.to_set().difference(known).len(),
    decreases loads.len(),
{
    if loads.len() == 0 {
        assert(loads.to_set().difference(known) =~= Set::empty());
    } else {
        let p = loads[0];
        let rest = loads.drop_first();
        lemma_one_decode_per_path(known.insert(p), rest);
        assert(loads.to_set() =~= rest.to_set().insert(p)) by {
            assert forall|q: Seq<char>| loads.to_set().contains(q) == rest.to_set().insert(p).contains(q) by {
                if loads.to_set().contains(q) && q != p {
                    let i = choose|i: int| 0 <= i < loads.len() && loads[i] == q;
                    assert(rest[i - 1] == q);
                }
                if rest.to_set().contains(q) {
                    let i = choose|i: int| 0 <= i < rest.len() && rest[i] == q;
                    assert(loads[i + 1] == q);
                }
                if q == p {
                    assert(loads[0] == q);
                }
            }
        }
        let d = rest.to_set().difference(known.insert(p));
        vstd::seq_lib::seq_to_set_is_finite(rest);
        if known.contains(p) {
            assert(loads.to_set().difference(known) =~= d);
        } else {
            assert(loads.to_set().difference(known) =~= d.insert(p));
            assert(!d.contains(p));
        }
    }
}

} // verus!
