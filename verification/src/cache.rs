//! The per-commit cache of `jj diff`/`jj show` output.
//!
//! jj's object store is content-addressed: a `commit_id` is derived from
//! the commit's content, and a rewrite always mints a new id. So the output
//! of `jj diff`/`jj show` for a `commit_id` never changes, across processes
//! too, and the cache can outlive the session. Entries are kept in the
//! order of their last use; past [`CAP`] entries the least recently used
//! one goes.
use vstd::prelude::*;

use crate::text::{opt_string_view, opt_str_view};

use crate::jj::{files_view, DiffFile};

verus! {

/// The most commits the cache keeps.
pub const CAP: usize = 300;

/// The raw `jj` output of one commit.
#[derive(Debug, Clone)]
pub struct CommitCache {
    /// What `jj diff --summary` listed.
    pub files: Vec<DiffFile>,
    /// The raw output (ANSI included) of `jj show --no-patch --color always`.
    pub header_raw: String,
    /// The raw `jj diff --color always` output per selected path (`None`
    /// for the whole change); where a path occurs twice, the later pair
    /// counts (see [`lookup`]).
    pub diffs_raw: Vec<(Option<String>, String)>,
}

/// The path of a cached diff (`None` for the whole change).
pub open spec fn diff_key(e: (Option<String>, String)) -> Option<Seq<char>> {
    opt_string_view(e.0)
}

/// The diff cached for `path` in `ds`: the last one, when a path occurs
/// more than once (as a map built from the pairs in order keeps it).
pub open spec fn lookup(ds: Seq<(Option<String>, String)>, path: Option<Seq<char>>) -> Option<Seq<char>>
    decreases ds.len(),
{
    if ds.len() == 0 {
        None
    } else if diff_key(ds.last()) == path {
        Some(ds.last().1@)
    } else {
        lookup(ds.drop_last(), path)
    }
}

/// Replacing the last diff of `p` changes what `p` finds and nothing
/// else.
proof fn lemma_lookup_update(ds: Seq<(Option<String>, String)>, i: int, x: (Option<String>, String))
    requires
        0 <= i < ds.len(),
        diff_key(ds[i]) == diff_key(x),
        forall|j: int| i < j < ds.len() ==> diff_key(#[trigger] ds[j]) != diff_key(x),
    ensures
        lookup(ds.update(i, x), diff_key(x)) == Some(x.1@),
        forall|k: Option<Seq<char>>| k != diff_key(x) ==> #[trigger] lookup(ds.update(i, x), k) == lookup(ds, k),
    decreases ds.len(),
{
    let u = ds.update(i, x);
    if i == ds.len() - 1 {
        assert(u.drop_last() =~= ds.drop_last());
        assert(u.last() == x);
        assert forall|k: Option<Seq<char>>| k != diff_key(x) implies #[trigger] lookup(u, k) == lookup(ds, k) by {
            assert(diff_key(ds.last()) != k);
        }
    } else {
        assert(u.drop_last() =~= ds.drop_last().update(i, x));
        assert forall|j: int| i < j < ds.len() - 1 implies diff_key(#[trigger] ds.drop_last()[j]) != diff_key(x) by {
            assert(ds.drop_last()[j] == ds[j]);
        }
        lemma_lookup_update(ds.drop_last(), i, x);
        assert(u.last() == ds.last());
        assert(diff_key(ds[ds.len() - 1]) != diff_key(x));
        assert forall|k: Option<Seq<char>>| k != diff_key(x) implies #[trigger] lookup(u, k) == lookup(ds, k) by {
            assert(lookup(u.drop_last(), k) == lookup(ds.drop_last(), k));
        }
    }
}

/// Adding a diff at the end: its path finds it, the others find what
/// they found.
proof fn lemma_lookup_push(ds: Seq<(Option<String>, String)>, x: (Option<String>, String))
    ensures
        lookup(ds.push(x), diff_key(x)) == Some(x.1@),
        forall|k: Option<Seq<char>>| k != diff_key(x) ==> #[trigger] lookup(ds.push(x), k) == lookup(ds, k),
{
    let u = ds.push(x);
    assert(u.drop_last() =~= ds);
    assert(u.last() == x);
}

impl CommitCache {
    /// What is cached for the diff of `path`.
    pub open spec fn cached_diff(&self, path: Option<Seq<char>>) -> Option<Seq<char>> {
        lookup(self.diffs_raw@, path)
    }

    /// An entry for a commit with no diff cached yet.
    pub fn new(files: Vec<DiffFile>, header_raw: String) -> (r: Self)
        ensures
            r.files@ == files@,
            r.header_raw@ == header_raw@,
            r.diffs_raw@.len() == 0,
            forall|p: Option<Seq<char>>| #[trigger] r.cached_diff(p) is None,
    {
        CommitCache { files, header_raw, diffs_raw: Vec::new() }
    }

    /// The cached diff of `path` (`None`: the whole change).
    pub fn diff_raw(&self, path: Option<&str>) -> (r: Option<&String>)
        ensures
            match r {
                Some(d) => self.cached_diff(opt_str_view(path)) == Some(d@),
                None => self.cached_diff(opt_str_view(path)) is None,
            },
    {
        match self.diff_index(path) {
            Some(i) => Some(&self.diffs_raw[i].1),
            None => None,
        }
    }

    /// Caches `diff` as the diff of `path`, replacing what was cached for
    /// that path; the other paths keep theirs.
    pub fn set_diff_raw(&mut self, path: Option<String>, diff: String)
        ensures
            final(self).files == old(self).files,
            final(self).header_raw == old(self).header_raw,
            final(self).cached_diff(opt_string_view(path)) == Some(diff@),
            forall|k: Option<Seq<char>>|
                k != opt_string_view(path) ==> #[trigger] final(self).cached_diff(k) == old(self).cached_diff(k),
    {
        let found = match &path {
            Some(p) => self.diff_index(Some(p.as_str())),
            None => self.diff_index(None),
        };
        let ghost ds = self.diffs_raw@;
        let ghost x = (path, diff);
        proof {
            assert(diff_key(x) == opt_string_view(path));
        }
        match found {
            Some(i) => {
                self.diffs_raw.set(i, (path, diff));
                proof {
                    lemma_lookup_update(ds, i as int, x);
                }
            },
            None => {
                self.diffs_raw.push((path, diff));
                proof {
                    lemma_lookup_push(ds, x);
                }
            },
        }
    }

    /// The index of the last cached diff of `path`.
    fn diff_index(&self, path: Option<&str>) -> (r: Option<usize>)
        ensures
            match r {
                Some(i) => i < self.diffs_raw@.len() && diff_key(self.diffs_raw@[i as int]) == opt_str_view(path)
                    && (forall|j: int|
                    i < j < self.diffs_raw@.len() ==> diff_key(#[trigger] self.diffs_raw@[j]) != opt_str_view(
                        path,
                    )) && lookup(self.diffs_raw@, opt_str_view(path)) == Some(self.diffs_raw@[i as int].1@),
                None => lookup(self.diffs_raw@, opt_str_view(path)) is None,
            },
    {
        let ghost ds = self.diffs_raw@;
        let ghost p = opt_str_view(path);
        let mut i: usize = self.diffs_raw.len();
        assert(ds.take(i as int) =~= ds);
        while i > 0
            invariant
                ds == self.diffs_raw@,
                p == opt_str_view(path),
                i <= ds.len(),
                forall|j: int| i <= j < ds.len() ==> diff_key(#[trigger] ds[j]) != p,
                lookup(ds, p) == lookup(ds.take(i as int), p),
            decreases i,
        {
            let k = i - 1;
            let same = match (&self.diffs_raw[k].0, path) {
                (Some(a), Some(b)) => crate::text::str_eq(a.as_str(), b),
                (None, None) => true,
                _ => false,
            };
            assert(ds.take(i as int).last() == ds[k as int]);
            if same {
                return Some(k);
            }
            assert(ds.take(i as int).drop_last() =~= ds.take(k as int));
            i = k;
        }
        assert(ds.take(0) =~= Seq::<(Option<String>, String)>::empty());
        None
    }
}

/// `commit_id` → [`CommitCache`], least recently used first.
#[derive(Debug)]
pub struct DiffStore {
    entries: Vec<(String, CommitCache)>,
}

/// The commit ids of a sequence of entries.
pub open spec fn keys_of(es: Seq<(String, CommitCache)>) -> Seq<Seq<char>> {
    Seq::new(es.len(), |i: int| es[i].0@)
}

/// The entries of `es` whose commit id is not `k`, in order.
pub open spec fn without(es: Seq<(String, CommitCache)>, k: Seq<char>) -> Seq<(String, CommitCache)>
    decreases es.len(),
{
    if es.len() == 0 {
        es
    } else if es.last().0@ == k {
        without(es.drop_last(), k)
    } else {
        without(es.drop_last(), k).push(es.last())
    }
}

/// `es` with its least recently used entry dropped when it holds more than
/// [`CAP`] entries.
pub open spec fn evicted(es: Seq<(String, CommitCache)>) -> Seq<(String, CommitCache)> {
    if es.len() > CAP {
        es.drop_first()
    } else {
        es
    }
}

/// The entries after inserting `e`: it becomes the most recently used, and
/// the least recently used goes when that leaves too many.
pub open spec fn spec_insert(es: Seq<(String, CommitCache)>, e: (String, CommitCache)) -> Seq<
    (String, CommitCache),
> {
    evicted(without(es, e.0@).push(e))
}

/// The entries after inserting each of `new` in order into an empty cache.
pub open spec fn spec_from_entries(new: Seq<(String, CommitCache)>) -> Seq<(String, CommitCache)>
    decreases new.len(),
{
    if new.len() == 0 {
        new
    } else {
        spec_insert(spec_from_entries(new.drop_last()), new.last())
    }
}

/// Removing a key that does not occur changes nothing.
pub proof fn lemma_without_absent(es: Seq<(String, CommitCache)>, k: Seq<char>)
    requires
        !keys_of(es).contains(k),
    ensures
        without(es, k) == es,
    decreases es.len(),
{
    if es.len() > 0 {
        assert(keys_of(es)[es.len() - 1] == es.last().0@);
        assert forall|j: int| 0 <= j < es.len() - 1 implies keys_of(es.drop_last())[j] == keys_of(es)[j] by {}
        assert(!keys_of(es.drop_last()).contains(k)) by {
            if keys_of(es.drop_last()).contains(k) {
                let j = choose|j: int| 0 <= j < es.len() - 1 && keys_of(es.drop_last())[j] == k;
                assert(keys_of(es)[j] == k);
            }
        }
        lemma_without_absent(es.drop_last(), k);
        assert(es.drop_last().push(es.last()) =~= es);
    }
}

/// Removing the only entry with key `k`, found at `i`.
pub proof fn lemma_without_at(es: Seq<(String, CommitCache)>, k: Seq<char>, i: int)
    requires
        keys_of(es).no_duplicates(),
        0 <= i < es.len(),
        es[i].0@ == k,
    ensures
        without(es, k) == es.remove(i),
    decreases es.len(),
{
    assert(keys_of(es)[i] == k);
    if i == es.len() - 1 {
        assert forall|j: int| 0 <= j < es.len() - 1 implies keys_of(es.drop_last())[j] == keys_of(es)[j] by {}
        assert(!keys_of(es.drop_last()).contains(k)) by {
            if keys_of(es.drop_last()).contains(k) {
                let j = choose|j: int| 0 <= j < es.len() - 1 && keys_of(es.drop_last())[j] == k;
                assert(keys_of(es)[j] == k);
            }
        }
        lemma_without_absent(es.drop_last(), k);
        assert(es.remove(i) =~= es.drop_last());
    } else {
        assert(keys_of(es)[es.len() - 1] == es.last().0@);
        assert(es.last().0@ != k);
        assert(keys_of(es.drop_last()).no_duplicates()) by {
            assert forall|a: int, b: int|
                0 <= a < b < es.len() - 1 implies keys_of(es.drop_last())[a] != keys_of(
                es.drop_last(),
            )[b] by {
                assert(keys_of(es.drop_last())[a] == keys_of(es)[a]);
                assert(keys_of(es.drop_last())[b] == keys_of(es)[b]);
            }
        }
        lemma_without_at(es.drop_last(), k, i);
        assert(es.drop_last().remove(i).push(es.last()) =~= es.remove(i));
    }
}

impl DiffStore {
    /// The entries of the cache, least recently used first.
    pub closed spec fn spec_entries(&self) -> Seq<(String, CommitCache)> {
        self.entries@
    }

    /// The commit ids in the cache, least recently used first.
    pub open spec fn keys(&self) -> Seq<Seq<char>> {
        keys_of(self.spec_entries())
    }

    /// Each commit id occurs once and there are at most [`CAP`] entries.
    pub closed spec fn wf(&self) -> bool {
        &&& self.keys().no_duplicates()
        &&& self.entries@.len() <= CAP
    }

    /// The index of the entry of `commit_id`.
    fn index_of(&self, commit_id: &str) -> (r: Option<usize>)
        requires
            self.wf(),
        ensures
            match r {
                Some(i) => i < self.entries@.len() && self.keys()[i as int] == commit_id@,
                None => !self.keys().contains(commit_id@),
            },
    {
        let target = crate::text::chars_of(commit_id);
        let mut i: usize = 0;
        while i < self.entries.len()
            invariant
                i <= self.entries@.len(),
                target@ == commit_id@,
                forall|j: int| 0 <= j < i ==> self.keys()[j] != commit_id@,
            decreases self.entries@.len() - i,
        {
            let key = crate::text::chars_of(self.entries[i].0.as_str());
            assert(self.keys()[i as int] == self.entries@[i as int].0@);
            if crate::text::chars_equal(key.as_slice(), target.as_slice()) {
                return Some(i);
            }
            i = i + 1;
        }
        None
    }

    /// Whether `commit_id` is cached.
    pub fn contains(&self, commit_id: &str) -> (r: bool)
        requires
            self.wf(),
        ensures
            r == self.keys().contains(commit_id@),
    {
        self.index_of(commit_id).is_some()
    }

    /// The entry of `commit_id`.
    pub fn get(&self, commit_id: &str) -> (r: Option<&CommitCache>)
        requires
            self.wf(),
        ensures
            match r {
                Some(e) => cached_entry(self.spec_entries(), commit_id@) == Some(*e),
                None => cached_entry(self.spec_entries(), commit_id@) is None,
            },
    {
        match self.index_of(commit_id) {
            Some(i) => {
                proof {
                    lemma_key_index(self.entries@, commit_id@, i as int);
                }
                Some(&self.entries[i].1)
            },
            None => None,
        }
    }

    /// `wf` is [`entries_wf`] of the entries.
    pub proof fn lemma_wf(&self)
        ensures
            self.wf() == entries_wf(self.spec_entries()),
    {
    }

    /// The entry of `commit_id`, to change it in place.
    pub fn get_mut(&mut self, commit_id: &str) -> (r: Option<&mut CommitCache>)
        requires
            old(self).wf(),
        ensures
            match r {
                Some(e) => key_index(old(self).spec_entries(), commit_id@) matches Some(i) && old(
                    self,
                ).spec_entries()[i].1 == *e && final(self).spec_entries() == old(self).spec_entries().update(
                    i,
                    (old(self).spec_entries()[i].0, *final(e)),
                ),
                None => key_index(old(self).spec_entries(), commit_id@) is None && *final(self) == *old(self),
            },
            final(self).wf(),
    {
        match self.index_of(commit_id) {
            Some(i) => {
                proof {
                    lemma_key_index(self.entries@, commit_id@, i as int);
                    let es = self.entries@;
                    assert forall|e: CommitCache| #[trigger] keys_of(es.update(i as int, (es[i as int].0, e))) == keys_of(es) by {
                        assert(keys_of(es.update(i as int, (es[i as int].0, e))) =~= keys_of(es));
                    }
                }
                Some(&mut self.entries[i].1)
            },
            None => None,
        }
    }

    /// Removes the entry of `commit_id`, if any, and hands it back.
    fn forget_order(&mut self, commit_id: &str) -> (r: Option<CommitCache>)
        requires
            old(self).wf(),
        ensures
            final(self).wf(),
            final(self).spec_entries() == without(old(self).spec_entries(), commit_id@),
            match r {
                Some(e) => exists|i: int|
                    0 <= i < old(self).spec_entries().len() && old(self).keys()[i] == commit_id@ && old(
                        self,
                    ).spec_entries()[i].1 == e,
                None => !old(self).keys().contains(commit_id@),
            },
    {
        match self.index_of(commit_id) {
            Some(i) => {
                let ghost before = self.entries@;
                proof {
                    lemma_without_at(before, commit_id@, i as int);
                }
                let (_id, e) = self.entries.remove(i);
                proof {
                    lemma_keys_remove(before, i as int);
                }
                Some(e)
            },
            None => {
                proof {
                    lemma_without_absent(self.entries@, commit_id@);
                }
                None
            },
        }
    }

    /// Adds the entry of a commit, as the most recently used; past [`CAP`]
    /// entries the least recently used one goes.
    pub fn insert(&mut self, commit_id: String, entry: CommitCache)
        requires
            old(self).wf(),
        ensures
            final(self).wf(),
            final(self).spec_entries() == spec_insert(old(self).spec_entries(), (commit_id, entry)),
    {
        let _ = self.forget_order(commit_id.as_str());
        let ghost removed = self.entries@;
        let ghost e = (commit_id, entry);
        proof {
            lemma_without_keys(old(self).entries@, commit_id@);
        }
        self.entries.push((commit_id, entry));
        proof {
            lemma_keys_push(removed, e);
        }
        if self.entries.len() > CAP {
            let ghost before = self.entries@;
            let _oldest = self.entries.remove(0);
            proof {
                lemma_keys_remove(before, 0);
                assert(before.remove(0) =~= before.drop_first());
            }
        }
    }

    /// Marks the entry of `commit_id`, if any, as the most recently used.
    pub fn touch(&mut self, commit_id: &str)
        requires
            old(self).wf(),
        ensures
            final(self).wf(),
            final(self).spec_entries() == spec_touch(old(self).spec_entries(), commit_id@),
    {
        match self.index_of(commit_id) {
            Some(i) => {
                let ghost before = self.entries@;
                proof {
                    lemma_without_at(before, commit_id@, i as int);
                    lemma_key_index(before, commit_id@, i as int);
                }
                let e = self.entries.remove(i);
                proof {
                    lemma_keys_remove(before, i as int);
                    lemma_without_keys(before, commit_id@);
                }
                let ghost removed = self.entries@;
                self.entries.push(e);
                proof {
                    lemma_keys_push(removed, e);
                }
            },
            None => {},
        }
    }

    /// Removes the entry of `commit_id`, if any.
    pub fn forget(&mut self, commit_id: &str)
        requires
            old(self).wf(),
        ensures
            final(self).wf(),
            final(self).spec_entries() == without(old(self).spec_entries(), commit_id@),
    {
        let _ = self.forget_order(commit_id);
    }

    /// The entries, least recently used first (what is written to disk).
    pub fn entries(&self) -> (r: &[(String, CommitCache)])
        ensures
            r@ == self.spec_entries(),
    {
        self.entries.as_slice()
    }

    /// The cache that inserting `entries` in order into an empty cache
    /// gives (what is read back from disk).
    pub fn from_entries(entries: Vec<(String, CommitCache)>) -> (r: DiffStore)
        ensures
            r.wf(),
            r.spec_entries() == spec_from_entries(entries@),
    {
        let mut store = DiffStore { entries: Vec::new() };
        assert(store.keys() =~= Seq::<Seq<char>>::empty());
        let mut rest = entries;
        let ghost all = rest@;
        assert(all.skip(0) =~= all);
        while rest.len() > 0
            invariant
                store.wf(),
                rest@.len() <= all.len(),
                rest@ == all.skip(all.len() - rest@.len()),
                store.spec_entries() == spec_from_entries(all.take(all.len() - rest@.len())),
            decreases rest@.len(),
        {
            let ghost r0 = rest@;
            let ghost k = all.len() - r0.len();
            let e = rest.remove(0);
            proof {
                assert(e == all[k]);
                assert(rest@ =~= all.skip(k + 1));
                assert(all.take(k + 1).drop_last() =~= all.take(k));
                assert(all.take(k + 1).last() == e);
            }
            store.insert(e.0, e.1);
        }
        assert(all.take(all.len() as int) =~= all);
        store
    }

}

/// The index of the entry of `k` in `es`, if any.
pub open spec fn key_index(es: Seq<(String, CommitCache)>, k: Seq<char>) -> Option<int> {
    if keys_of(es).contains(k) {
        Some(choose|i: int| 0 <= i < keys_of(es).len() && keys_of(es)[i] == k)
    } else {
        None
    }
}

/// The entry of `k` in `es`, if any.
pub open spec fn cached_entry(es: Seq<(String, CommitCache)>, k: Seq<char>) -> Option<CommitCache> {
    match key_index(es, k) {
        Some(i) => Some(es[i].1),
        None => None,
    }
}

/// The entries after the entry of `k`, if any, is marked as the most
/// recently used.
pub open spec fn spec_touch(es: Seq<(String, CommitCache)>, k: Seq<char>) -> Seq<(String, CommitCache)> {
    match key_index(es, k) {
        Some(i) => without(es, k).push(es[i]),
        None => es,
    }
}

/// Marking an entry as the most recently used keeps what it holds.
pub proof fn lemma_touch_keeps_entry(es: Seq<(String, CommitCache)>, k: Seq<char>)
    requires
        keys_of(es).no_duplicates(),
    ensures
        cached_entry(spec_touch(es, k), k) == cached_entry(es, k),
{
    match key_index(es, k) {
        Some(i) => {
            lemma_key_index_at(es, k, i);
            lemma_without_keys(es, k);
            lemma_keys_push(without(es, k), es[i]);
            let t = without(es, k).push(es[i]);
            assert(keys_of(t)[t.len() - 1] == k);
            lemma_key_index_at(t, k, t.len() - 1);
        },
        None => {},
    }
}

/// The pairs `without` keeps are exactly those of `es` with another
/// commit id.
proof fn lemma_without_pairs(es: Seq<(String, CommitCache)>, k: Seq<char>)
    ensures
        forall|x: (String, CommitCache)|
            #[trigger] without(es, k).contains(x) <==> (es.contains(x) && x.0@ != k),
    decreases es.len(),
{
    if es.len() > 0 {
        let d = es.drop_last();
        let wd = without(d, k);
        let w = without(es, k);
        lemma_without_pairs(d, k);
        if es.last().0@ == k {
            assert(w == wd);
        } else {
            assert(w == wd.push(es.last()));
        }
        assert forall|x: (String, CommitCache)|
            #[trigger] w.contains(x) <==> (es.contains(x) && x.0@ != k) by {
            if es.contains(x) && x.0@ != k {
                let j = choose|j: int| 0 <= j < es.len() && es[j] == x;
                if j < es.len() - 1 {
                    assert(d[j] == x);
                    assert(d.contains(x));
                    assert(wd.contains(x));
                    let m = choose|m: int| 0 <= m < wd.len() && wd[m] == x;
                    assert(w[m] == x);
                } else {
                    assert(es.last() == x);
                    assert(w[w.len() - 1] == x);
                }
            }
            if w.contains(x) {
                let j = choose|j: int| 0 <= j < w.len() && w[j] == x;
                if es.last().0@ != k && j == w.len() - 1 {
                    assert(es[es.len() - 1] == x);
                } else {
                    assert(wd[j] == x);
                    assert(wd.contains(x));
                    assert(d.contains(x));
                    let m = choose|m: int| 0 <= m < d.len() && d[m] == x;
                    assert(es[m] == x);
                }
            }
        }
    }
}

/// Two caches with unique ids that hold the same pairs for `k` give the
/// same entry for `k`.
proof fn lemma_same_entry(a: Seq<(String, CommitCache)>, b: Seq<(String, CommitCache)>, k: Seq<char>)
    requires
        keys_of(a).no_duplicates(),
        keys_of(b).no_duplicates(),
        forall|x: (String, CommitCache)| x.0@ == k ==> (#[trigger] a.contains(x) <==> b.contains(x)),
    ensures
        cached_entry(a, k) == cached_entry(b, k),
{
    if keys_of(a).contains(k) {
        let i = choose|i: int| 0 <= i < keys_of(a).len() && keys_of(a)[i] == k;
        lemma_key_index_at(a, k, i);
        assert(a[i].0@ == k);
        assert(a.contains(a[i]));
        assert(b.contains(a[i]));
        let j = choose|j: int| 0 <= j < b.len() && b[j] == a[i];
        assert(keys_of(b)[j] == k);
        lemma_key_index_at(b, k, j);
    } else if keys_of(b).contains(k) {
        let j = choose|j: int| 0 <= j < keys_of(b).len() && keys_of(b)[j] == k;
        assert(b[j].0@ == k);
        assert(b.contains(b[j]));
        assert(a.contains(b[j]));
        let i = choose|i: int| 0 <= i < a.len() && a[i] == b[j];
        assert(keys_of(a)[i] == k);
    }
}

/// An inserted cache keeps unique ids and at most [`CAP`] entries.
proof fn lemma_insert_wf(es: Seq<(String, CommitCache)>, e: (String, CommitCache))
    requires
        entries_wf(es),
    ensures
        entries_wf(spec_insert(es, e)),
        spec_insert(es, e).last() == e,
{
    lemma_without_keys(es, e.0@);
    lemma_keys_push(without(es, e.0@), e);
    let pushed = without(es, e.0@).push(e);
    if pushed.len() > CAP {
        assert(keys_of(pushed.drop_first()) =~= keys_of(pushed).drop_first());
    }
}

/// Inserting an entry changes no other entry: every other commit id finds
/// what it found before, except the one least recently used entry that a
/// full cache drops, which is then gone.
pub proof fn law_insert_keeps_others(es: Seq<(String, CommitCache)>, e: (String, CommitCache), k: Seq<char>)
    requires
        entries_wf(es),
        k != e.0@,
    ensures
        !(without(es, e.0@).len() >= CAP && without(es, e.0@)[0].0@ == k) ==> cached_entry(
            spec_insert(es, e),
            k,
        ) == cached_entry(es, k),
        without(es, e.0@).len() >= CAP && without(es, e.0@)[0].0@ == k ==> cached_entry(
            spec_insert(es, e),
            k,
        ) is None,
{
    let w = without(es, e.0@);
    let pushed = w.push(e);
    let r = spec_insert(es, e);
    lemma_without_keys(es, e.0@);
    lemma_keys_push(w, e);
    lemma_insert_wf(es, e);
    lemma_without_pairs(es, e.0@);
    if pushed.len() > CAP && w[0].0@ == k {
        assert(r == pushed.drop_first());
        if keys_of(r).contains(k) {
            let j = choose|j: int| 0 <= j < keys_of(r).len() && keys_of(r)[j] == k;
            assert(keys_of(pushed)[j + 1] == k);
            assert(keys_of(pushed)[0] == k);
        }
    } else {
        assert forall|x: (String, CommitCache)| x.0@ == k implies (#[trigger] r.contains(x) <==> es.contains(x)) by {
            if r.contains(x) {
                let j = choose|j: int| 0 <= j < r.len() && r[j] == x;
                if pushed.len() > CAP {
                    assert(pushed[j + 1] == x);
                    if j + 1 < w.len() {
                        assert(w[j + 1] == x);
                        assert(w.contains(x));
                    }
                } else if j < w.len() {
                    assert(w[j] == x);
                    assert(w.contains(x));
                }
            }
            if es.contains(x) {
                assert(w.contains(x));
                let j = choose|j: int| 0 <= j < w.len() && w[j] == x;
                assert(pushed[j] == x);
                if pushed.len() > CAP {
                    assert(j != 0);
                    assert(r[j - 1] == x);
                } else {
                    assert(r[j] == x);
                }
            }
        }
        lemma_same_entry(r, es, k);
    }
}

/// Inserting the same entry twice gives the cache one insertion gives.
pub proof fn law_insert_twice(es: Seq<(String, CommitCache)>, e: (String, CommitCache))
    requires
        entries_wf(es),
    ensures
        spec_insert(spec_insert(es, e), e) == spec_insert(es, e),
{
    let r = spec_insert(es, e);
    lemma_insert_wf(es, e);
    assert(keys_of(r)[r.len() - 1] == e.0@);
    lemma_without_at(r, e.0@, r.len() - 1);
    assert(r.remove(r.len() - 1) =~= r.drop_last());
    assert(r.drop_last().push(e) =~= r);
}

/// Touching an entry changes no entry: every commit id finds what it
/// found before, and the other entries keep their order.
pub proof fn law_touch_keeps_entries(es: Seq<(String, CommitCache)>, k: Seq<char>, k2: Seq<char>)
    requires
        entries_wf(es),
    ensures
        cached_entry(spec_touch(es, k), k2) == cached_entry(es, k2),
        without(spec_touch(es, k), k) == without(es, k),
{
    match key_index(es, k) {
        Some(i) => {
            let w = without(es, k);
            let t = w.push(es[i]);
            let i0 = choose|j: int| 0 <= j < keys_of(es).len() && keys_of(es)[j] == k;
            lemma_key_index_at(es, k, i0);
            assert(i == i0);
            assert(es[i].0@ == k);
            lemma_without_keys(es, k);
            lemma_keys_push(w, es[i]);
            lemma_without_pairs(es, k);
            assert(t.drop_last() =~= w);
            assert(t.last() == es[i]);
            assert(without(t, k) == without(w, k));
            lemma_without_absent(w, k);
            if k2 == k {
                lemma_touch_keeps_entry(es, k);
            } else {
                assert forall|x: (String, CommitCache)| x.0@ == k2 implies (#[trigger] t.contains(x) <==> es.contains(x)) by {
                    if t.contains(x) {
                        let j = choose|j: int| 0 <= j < t.len() && t[j] == x;
                        if j < w.len() {
                            assert(w[j] == x);
                            assert(w.contains(x));
                        }
                    }
                    if es.contains(x) {
                        assert(w.contains(x));
                        let j = choose|j: int| 0 <= j < w.len() && w[j] == x;
                        assert(t[j] == x);
                    }
                }
                lemma_same_entry(t, es, k2);
            }
        },
        None => {},
    }
}

/// Unique commit ids and at most [`CAP`] entries.
pub open spec fn entries_wf(es: Seq<(String, CommitCache)>) -> bool {
    keys_of(es).no_duplicates() && es.len() <= CAP
}

/// The index of a key that occurs once.
pub proof fn lemma_key_index_at(es: Seq<(String, CommitCache)>, k: Seq<char>, i: int)
    requires
        keys_of(es).no_duplicates(),
        0 <= i < es.len(),
        keys_of(es)[i] == k,
    ensures
        key_index(es, k) == Some(i),
        cached_entry(es, k) == Some(es[i].1),
{
    lemma_key_index(es, k, i);
}

/// The index of a key that occurs once.
proof fn lemma_key_index(es: Seq<(String, CommitCache)>, k: Seq<char>, i: int)
    requires
        keys_of(es).no_duplicates(),
        0 <= i < es.len(),
        keys_of(es)[i] == k,
    ensures
        key_index(es, k) == Some(i),
{
    assert(keys_of(es).contains(k));
    let j = choose|j: int| 0 <= j < keys_of(es).len() && keys_of(es)[j] == k;
    assert(j == i);
}

/// Removing an entry keeps the keys unique and drops its key.
proof fn lemma_keys_remove(es: Seq<(String, CommitCache)>, i: int)
    requires
        keys_of(es).no_duplicates(),
        0 <= i < es.len(),
    ensures
        keys_of(es.remove(i)) == keys_of(es).remove(i),
        keys_of(es.remove(i)).no_duplicates(),
{
    assert(keys_of(es.remove(i)) =~= keys_of(es).remove(i));
    let ks = keys_of(es).remove(i);
    assert forall|a: int, b: int| 0 <= a < b < ks.len() implies ks[a] != ks[b] by {
        let a0 = if a < i { a } else { a + 1 };
        let b0 = if b < i { b } else { b + 1 };
        assert(ks[a] == keys_of(es)[a0]);
        assert(ks[b] == keys_of(es)[b0]);
    }
}

/// After removing `k`, it no longer occurs.
proof fn lemma_without_keys(es: Seq<(String, CommitCache)>, k: Seq<char>)
    ensures
        !keys_of(without(es, k)).contains(k),
        without(es, k).len() <= es.len(),
        keys_of(es).no_duplicates() ==> keys_of(without(es, k)).no_duplicates(),
        forall|x: Seq<char>| keys_of(without(es, k)).contains(x) ==> #[trigger] keys_of(es).contains(x),
    decreases es.len(),
{
    if es.len() > 0 {
        let d = es.drop_last();
        assert forall|j: int| 0 <= j < d.len() implies keys_of(d)[j] == keys_of(es)[j] by {}
        assert(keys_of(es).no_duplicates() ==> keys_of(d).no_duplicates()) by {
            if keys_of(es).no_duplicates() {
                assert forall|a: int, b: int| 0 <= a < b < d.len() implies keys_of(d)[a] != keys_of(d)[b] by {
                    assert(keys_of(d)[a] == keys_of(es)[a]);
                    assert(keys_of(d)[b] == keys_of(es)[b]);
                }
            }
        }
        lemma_without_keys(d, k);
        let w = without(d, k);
        assert(keys_of(es)[es.len() - 1] == es.last().0@);
        if es.last().0@ != k {
            let w2 = w.push(es.last());
            assert(keys_of(w2) =~= keys_of(w).push(es.last().0@));
            assert forall|x: Seq<char>| keys_of(w2).contains(x) implies #[trigger] keys_of(es).contains(x) by {
                let j = choose|j: int| 0 <= j < keys_of(w2).len() && keys_of(w2)[j] == x;
                if j < w.len() {
                    assert(keys_of(w).contains(x));
                    assert(keys_of(d).contains(x));
                    let m = choose|m: int| 0 <= m < keys_of(d).len() && keys_of(d)[m] == x;
                    assert(keys_of(es)[m] == x);
                } else {
                    assert(keys_of(es)[es.len() - 1] == x);
                }
            }
            assert(!keys_of(w2).contains(k)) by {
                if keys_of(w2).contains(k) {
                    let j = choose|j: int| 0 <= j < keys_of(w2).len() && keys_of(w2)[j] == k;
                    if j < w.len() {
                        assert(keys_of(w)[j] == k);
                    }
                }
            }
            if keys_of(es).no_duplicates() {
                assert(!keys_of(d).contains(es.last().0@)) by {
                    if keys_of(d).contains(es.last().0@) {
                        let m = choose|m: int| 0 <= m < keys_of(d).len() && keys_of(d)[m] == es.last().0@;
                        assert(keys_of(es)[m] == keys_of(es)[es.len() - 1]);
                    }
                }
                assert(!keys_of(w).contains(es.last().0@)) by {
                    if keys_of(w).contains(es.last().0@) {
                        assert(keys_of(d).contains(es.last().0@));
                    }
                }
                assert forall|a: int, b: int| 0 <= a < b < w2.len() implies keys_of(w2)[a] != keys_of(w2)[b] by {
                    if b == w.len() {
                        assert(keys_of(w2)[a] == keys_of(w)[a]);
                    } else {
                        assert(keys_of(w2)[a] == keys_of(w)[a]);
                        assert(keys_of(w2)[b] == keys_of(w)[b]);
                    }
                }
            }
        } else {
            assert forall|x: Seq<char>| keys_of(w).contains(x) implies #[trigger] keys_of(es).contains(x) by {
                assert(keys_of(d).contains(x));
                let m = choose|m: int| 0 <= m < keys_of(d).len() && keys_of(d)[m] == x;
                assert(keys_of(es)[m] == x);
            }
        }
    }
}

/// Appending an entry whose key is new keeps the keys unique.
proof fn lemma_keys_push(es: Seq<(String, CommitCache)>, e: (String, CommitCache))
    requires
        keys_of(es).no_duplicates(),
        !keys_of(es).contains(e.0@),
    ensures
        keys_of(es.push(e)) == keys_of(es).push(e.0@),
        keys_of(es.push(e)).no_duplicates(),
{
    assert(keys_of(es.push(e)) =~= keys_of(es).push(e.0@));
    let ks = keys_of(es.push(e));
    assert forall|a: int, b: int| 0 <= a < b < ks.len() implies ks[a] != ks[b] by {
        assert(ks[a] == keys_of(es)[a]);
        if b < es.len() {
            assert(ks[b] == keys_of(es)[b]);
        }
    }
}

/// A read after a write: right after inserting an entry, a lookup of its
/// commit id finds exactly that entry, and it is the most recently used.
pub proof fn law_insert_then_get(es: Seq<(String, CommitCache)>, e: (String, CommitCache))
    requires
        keys_of(es).no_duplicates(),
        es.len() <= CAP,
    ensures
        spec_insert(es, e).last() == e,
        keys_of(spec_insert(es, e)).contains(e.0@),
        key_index(spec_insert(es, e), e.0@) == Some((spec_insert(es, e).len() - 1) as int),
        spec_insert(es, e)[spec_insert(es, e).len() - 1].1 == e.1,
        spec_insert(es, e).len() <= CAP,
{
    lemma_without_keys(es, e.0@);
    lemma_keys_push(without(es, e.0@), e);
    let pushed = without(es, e.0@).push(e);
    let r = spec_insert(es, e);
    if pushed.len() > CAP {
        assert(keys_of(r) =~= keys_of(pushed).drop_first());
    } else {
        assert(keys_of(r) == keys_of(pushed));
    }
    assert(keys_of(r)[r.len() - 1] == e.0@);
    assert(keys_of(r).no_duplicates());
    lemma_key_index(r, e.0@, r.len() - 1);
}

/// Inserting a new commit into a full cache drops exactly the least
/// recently used entry and keeps the order of the rest.
pub proof fn law_insert_evicts_least_recently_used(
    es: Seq<(String, CommitCache)>,
    e: (String, CommitCache),
)
    requires
        keys_of(es).no_duplicates(),
        es.len() == CAP,
        !keys_of(es).contains(e.0@),
    ensures
        spec_insert(es, e) == es.drop_first().push(e),
{
    lemma_without_absent(es, e.0@);
}

/// Inserting a commit that is already cached never evicts another one:
/// the cache keeps its size.
pub proof fn law_insert_existing_keeps_size(es: Seq<(String, CommitCache)>, e: (String, CommitCache))
    requires
        keys_of(es).no_duplicates(),
        es.len() <= CAP,
        keys_of(es).contains(e.0@),
    ensures
        spec_insert(es, e).len() == es.len(),
        keys_of(spec_insert(es, e)).len() == keys_of(es).len(),
{
    let i = choose|i: int| 0 <= i < keys_of(es).len() && keys_of(es)[i] == e.0@;
    lemma_without_at(es, e.0@, i);
}

/// Saving the entries of a cache and loading them back in the same order
/// gives the same entries in the same order of use.
pub proof fn law_save_load_round_trip(es: Seq<(String, CommitCache)>)
    requires
        keys_of(es).no_duplicates(),
        es.len() <= CAP,
    ensures
        spec_from_entries(es) == es,
    decreases es.len(),
{
    if es.len() > 0 {
        let d = es.drop_last();
        assert forall|a: int, b: int| 0 <= a < b < d.len() implies keys_of(d)[a] != keys_of(d)[b] by {
            assert(keys_of(d)[a] == keys_of(es)[a]);
            assert(keys_of(d)[b] == keys_of(es)[b]);
        }
        law_save_load_round_trip(d);
        assert(!keys_of(d).contains(es.last().0@)) by {
            if keys_of(d).contains(es.last().0@) {
                let m = choose|m: int| 0 <= m < keys_of(d).len() && keys_of(d)[m] == es.last().0@;
                assert(keys_of(es)[m] == keys_of(es)[es.len() - 1]);
            }
        }
        lemma_without_absent(d, es.last().0@);
        assert(d.push(es.last()) =~= es);
    }
}

impl Default for DiffStore {
    /// An empty cache.
    fn default() -> (r: Self)
        ensures
            r.wf(),
            r.spec_entries().len() == 0,
    {
        let r = DiffStore { entries: Vec::new() };
        assert(r.keys() =~= Seq::<Seq<char>>::empty());
        r
    }
}

} // verus!
