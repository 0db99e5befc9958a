//! Bookkeeping of directory sizes computed in the background: which paths
//! are being measured and which sizes are known. A size is measured at most
//! once per path, and a known size is kept.

use vstd::prelude::*;
use crate::browser::{needs_size_scan, strings_view};

verus! {

/// The known paths: each maps to `None` while its size is being computed,
/// to `Some(size)` once computed.
pub type SizeMap = Map<Seq<Seq<char>>, Option<u128>>;

/// Whether a size scan of `path` starts: it is a directory whose size is
/// neither known nor being computed.
pub open spec fn scan_starts(m: SizeMap, path: Seq<Seq<char>>, is_dir: bool) -> bool {
    is_dir && !m.contains_key(path)
}

/// The bookkeeping after asking to measure `path`: a started scan marks it
/// as being computed.
pub open spec fn after_begin(m: SizeMap, path: Seq<Seq<char>>, is_dir: bool) -> SizeMap {
    if scan_starts(m, path, is_dir) {
        m.insert(path, None)
    } else {
        m
    }
}

/// The bookkeeping after the size of `path` has been computed.
pub open spec fn after_finish(m: SizeMap, path: Seq<Seq<char>>, size: u128) -> SizeMap {
    m.insert(path, Some(size))
}

/// One step of the bookkeeping.
pub enum CacheStep {
    Begin(Seq<Seq<char>>, bool),
    Finish(Seq<Seq<char>>, u128),
}

/// The bookkeeping after a sequence of steps.
pub open spec fn run(m: SizeMap, steps: Seq<CacheStep>) -> SizeMap
    decreases steps.len(),
{
    if steps.len() == 0 {
        m
    } else {
        let next = match steps[0] {
            CacheStep::Begin(p, d) => after_begin(m, p, d),
            CacheStep::Finish(p, n) => after_finish(m, p, n),
        };
        run(next, steps.drop_first())
    }
}

/// The position of `p` among `keys`.
spec fn position(keys: Seq<Seq<Seq<char>>>, p: Seq<Seq<char>>) -> int {
    choose|i: int| 0 <= i < keys.len() && keys[i] == p
}

/// No path occurs twice among `keys`.
spec fn distinct(keys: Seq<Seq<Seq<char>>>) -> bool {
    forall|i: int, j: int| 0 <= i < j < keys.len() ==> #[trigger] keys[i] != #[trigger] keys[j]
}

/// The map from distinct `keys` to `vals`.
spec fn as_map(keys: Seq<Seq<Seq<char>>>, vals: Seq<Option<u128>>) -> SizeMap {
    Map::new(|p: Seq<Seq<char>>| keys.contains(p), |p: Seq<Seq<char>>| vals[position(keys, p)])
}

proof fn lemma_position(keys: Seq<Seq<Seq<char>>>, i: int)
    requires
        distinct(keys),
        0 <= i < keys.len(),
    ensures
        position(keys, keys[i]) == i,
{
    let j = position(keys, keys[i]);
    assert(0 <= j < keys.len() && keys[j] == keys[i]);
    if j < i {
        assert(keys[j] != keys[i]);
    } else if i < j {
        assert(keys[i] != keys[j]);
    }
}

/// Appending a new key maps it to its value and keeps the rest.
proof fn lemma_as_map_push(
    keys: Seq<Seq<Seq<char>>>,
    vals: Seq<Option<u128>>,
    p: Seq<Seq<char>>,
    v: Option<u128>,
)
    requires
        distinct(keys),
        keys.len() == vals.len(),
        !keys.contains(p),
    ensures
        distinct(keys.push(p)),
        as_map(keys.push(p), vals.push(v)) == as_map(keys, vals).insert(p, v),
{
    let k2 = keys.push(p);
    assert forall|i: int, j: int| 0 <= i < j < k2.len() implies #[trigger] k2[i] != #[trigger] k2[j] by {
        if j == keys.len() {
            assert(keys[i] == k2[i]);
        } else {
            assert(keys[i] != keys[j]);
        }
    }
    let m2 = as_map(k2, vals.push(v));
    let m1 = as_map(keys, vals).insert(p, v);
    assert forall|q: Seq<Seq<char>>| #[trigger] m2.contains_key(q) == m1.contains_key(q) by {
        if q != p && k2.contains(q) {
            let k = choose|k: int| 0 <= k < k2.len() && k2[k] == q;
            assert(keys[k] == q);
        }
        if keys.contains(q) {
            let k = choose|k: int| 0 <= k < keys.len() && keys[k] == q;
            assert(k2[k] == q);
        }
        assert(k2[keys.len() as int] == p);
    }
    assert forall|q: Seq<Seq<char>>| #[trigger] m2.contains_key(q) implies m2[q] == m1[q] by {
        if q == p {
            lemma_position(k2, keys.len() as int);
        } else {
            let k = choose|k: int| 0 <= k < k2.len() && k2[k] == q;
            assert(k < keys.len());
            assert(keys[k] == q);
            lemma_position(k2, k);
            lemma_position(keys, k);
        }
    }
    assert(m2 =~= m1);
}

/// Replacing the value at a key's position updates that key alone.
proof fn lemma_as_map_update(
    keys: Seq<Seq<Seq<char>>>,
    vals: Seq<Option<u128>>,
    i: int,
    v: Option<u128>,
)
    requires
        distinct(keys),
        keys.len() == vals.len(),
        0 <= i < keys.len(),
    ensures
        as_map(keys, vals.update(i, v)) == as_map(keys, vals).insert(keys[i], v),
{
    let m2 = as_map(keys, vals.update(i, v));
    let m1 = as_map(keys, vals).insert(keys[i], v);
    assert(keys.contains(keys[i]));
    assert forall|q: Seq<Seq<char>>| #[trigger] m2.contains_key(q) implies m2[q] == m1[q] by {
        let k = choose|k: int| 0 <= k < keys.len() && keys[k] == q;
        lemma_position(keys, k);
        if k != i {
            assert(keys[k] != keys[i]) by {
                if k < i {
                } else {
                }
            }
        }
    }
    assert(m2 =~= m1);
}

/// Sizes of directories by path.
pub struct SizeCache {
    entries: Vec<(Vec<String>, Option<u128>)>,
}

/// The recorded paths, in order.
spec fn keys_of(entries: Seq<(Vec<String>, Option<u128>)>) -> Seq<Seq<Seq<char>>> {
    entries.map_values(|e: (Vec<String>, Option<u128>)| strings_view(e.0@))
}

/// The recorded sizes, in order.
spec fn vals_of(entries: Seq<(Vec<String>, Option<u128>)>) -> Seq<Option<u128>> {
    entries.map_values(|e: (Vec<String>, Option<u128>)| e.1)
}

impl SizeCache {
    spec fn keys(&self) -> Seq<Seq<Seq<char>>> {
        keys_of(self.entries@)
    }

    spec fn vals(&self) -> Seq<Option<u128>> {
        vals_of(self.entries@)
    }

    /// No path is recorded twice.
    #[verifier::type_invariant]
    spec fn no_path_twice(&self) -> bool {
        distinct(self.keys())
    }
}

impl View for SizeCache {
    type V = SizeMap;

    closed spec fn view(&self) -> SizeMap {
        as_map(self.keys(), self.vals())
    }
}

fn same_path(a: &Vec<String>, b: &Vec<String>) -> (r: bool)
    ensures
        r == (strings_view(a@) == strings_view(b@)),
{
    if a.len() != b.len() {
        assert(strings_view(a@).len() != strings_view(b@).len());
        return false;
    }
    let mut i: usize = 0;
    while i < a.len()
        invariant
            a@.len() == b@.len(),
            i <= a@.len(),
            forall|k: int| 0 <= k < i ==> a@[k]@ == b@[k]@,
        decreases a.len() - i,
    {
        if a[i] != b[i] {
            assert(strings_view(a@)[i as int] != strings_view(b@)[i as int]);
            return false;
        }
        i = i + 1;
    }
    assert(strings_view(a@) =~= strings_view(b@));
    true
}

fn find(entries: &Vec<(Vec<String>, Option<u128>)>, path: &Vec<String>) -> (r: Option<usize>)
    ensures
        r matches Some(i) ==> i < entries@.len() && keys_of(entries@)[i as int] == strings_view(
            path@,
        ),
        r is None ==> !keys_of(entries@).contains(strings_view(path@)),
{
    let mut i: usize = 0;
    while i < entries.len()
        invariant
            i <= entries@.len(),
            forall|k: int| 0 <= k < i ==> keys_of(entries@)[k] != strings_view(path@),
        decreases entries.len() - i,
    {
        if same_path(&entries[i].0, path) {
            return Some(i);
        }
        i = i + 1;
    }
    None
}

impl SizeCache {
    /// Nothing known, nothing being measured.
    pub fn new() -> (r: SizeCache)
        ensures
            r@ == SizeMap::empty(),
    {
        let r = SizeCache { entries: Vec::new() };
        assert(r@ =~= SizeMap::empty());
        r
    }

    /// The size of `path`, once computed.
    pub fn size_of(&self, path: &Vec<String>) -> (r: Option<u128>)
        ensures
            r == (if self@.contains_key(strings_view(path@)) {
                self@[strings_view(path@)]
            } else {
                None
            }),
    {
        proof {
            use_type_invariant(self);
        }
        match find(&self.entries, path) {
            Some(i) => {
                proof {
                    lemma_position(self.keys(), i as int);
                    assert(self.keys().contains(strings_view(path@)));
                }
                self.entries[i].1
            },
            None => None,
        }
    }

    /// Asks to measure `path`; returns whether a scan starts (see
    /// [`after_begin`]), in which case the caller computes the size and
    /// reports it with [`SizeCache::finish_scan`].
    pub fn begin_scan(&mut self, path: Vec<String>, is_dir: bool) -> (r: bool)
        ensures
            r == scan_starts(old(self)@, strings_view(path@), is_dir),
            final(self)@ == after_begin(old(self)@, strings_view(path@), is_dir),
    {
        proof {
            use_type_invariant(&*self);
        }
        let found = find(&self.entries, &path);
        let (cached, scanning) = match found {
            Some(i) => (self.entries[i].1.is_some(), self.entries[i].1.is_none()),
            None => (false, false),
        };
        let starts = needs_size_scan(is_dir, cached, scanning);
        proof {
            if found is Some {
                assert(self.keys().contains(strings_view(path@)));
            }
        }
        if starts {
            let ghost p = strings_view(path@);
            proof {
                lemma_as_map_push(self.keys(), self.vals(), p, None);
            }
            let mut entries: Vec<(Vec<String>, Option<u128>)> = Vec::new();
            std::mem::swap(&mut entries, &mut self.entries);
            entries.push((path, None));
            proof {
                assert(keys_of(entries@) =~= old(self).keys().push(p));
                assert(vals_of(entries@) =~= old(self).vals().push(None));
            }
            self.entries = entries;
        }
        starts
    }

    /// Records the computed size of `path` (see [`after_finish`]).
    pub fn finish_scan(&mut self, path: Vec<String>, size: u128)
        ensures
            final(self)@ == after_finish(old(self)@, strings_view(path@), size),
    {
        proof {
            use_type_invariant(&*self);
        }
        let ghost p = strings_view(path@);
        let mut entries: Vec<(Vec<String>, Option<u128>)> = Vec::new();
        std::mem::swap(&mut entries, &mut self.entries);
        match find(&entries, &path) {
            Some(i) => {
                proof {
                    lemma_as_map_update(old(self).keys(), old(self).vals(), i as int, Some(size));
                }
                entries.set(i, (path, Some(size)));
                proof {
                    assert(keys_of(entries@) =~= old(self).keys());
                    assert(vals_of(entries@) =~= old(self).vals().update(i as int, Some(size)));
                }
            },
            None => {
                proof {
                    lemma_as_map_push(old(self).keys(), old(self).vals(), p, Some(size));
                }
                entries.push((path, Some(size)));
                proof {
                    assert(keys_of(entries@) =~= old(self).keys().push(p));
                    assert(vals_of(entries@) =~= old(self).vals().push(Some(size)));
                }
            },
        }
        self.entries = entries;
    }
}

proof fn lemma_run_keeps_known(m: SizeMap, steps: Seq<CacheStep>, p: Seq<Seq<char>>)
    requires
        m.contains_key(p),
    ensures
        run(m, steps).contains_key(p),
    decreases steps.len(),
{
    if steps.len() > 0 {
        let next = match steps[0] {
            CacheStep::Begin(q, d) => after_begin(m, q, d),
            CacheStep::Finish(q, n) => after_finish(m, q, n),
        };
        lemma_run_keeps_known(next, steps.drop_first(), p);
    }
}

/// A path is measured at most once: once a scan of it has started, no
/// later request, after any further steps, starts another.
pub proof fn lemma_scan_at_most_once(
    m: SizeMap,
    path: Seq<Seq<char>>,
    is_dir: bool,
    steps: Seq<CacheStep>,
    again: bool,
)
    requires
        scan_starts(m, path, is_dir),
    ensures
        !scan_starts(run(after_begin(m, path, is_dir), steps), path, again),
{
    lemma_run_keeps_known(after_begin(m, path, is_dir), steps, path);
}

/// A known size is kept: asking to measure any path never changes it, and
/// only a new result for the same path replaces it.
pub proof fn lemma_known_size_kept(m: SizeMap, path: Seq<Seq<char>>, other: Seq<Seq<char>>, is_dir: bool, size: u128)
    requires
        m.contains_key(path),
        m[path] is Some,
        other != path,
    ensures
        after_begin(m, other, is_dir)[path] == m[path],
        after_begin(m, path, is_dir) == m,
        after_finish(m, other, size)[path] == m[path],
{
}

/// Once the size of a path is reported, the path maps to exactly that size,
/// whatever it is (0 included), and every other path keeps what it had.
pub proof fn lemma_reported_size_recorded(m: SizeMap, path: Seq<Seq<char>>, other: Seq<Seq<char>>, size: u128)
    requires
        other != path,
    ensures
        after_finish(m, path, size).contains_key(path),
        after_finish(m, path, size)[path] == Some(size),
        after_finish(m, path, size).contains_key(other) == m.contains_key(other),
        m.contains_key(other) ==> after_finish(m, path, size)[other] == m[other],
        !scan_starts(after_finish(m, path, size), path, true),
{
}

} // verus!
