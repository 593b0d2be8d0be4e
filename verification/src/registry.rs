//! Association stores backing the bucket: identifier-keyed maps for staged
//! batches and chunks, and the path-keyed registry of committed assets.
//! Each store is a vector of entries with pairwise-distinct keys, viewed as
//! a mathematical `Map`.

use crate::types::{Asset, AssetV};
use crate::text::str_eq;
use vstd::pervasive::VecAdditionalExecFns;
use vstd::prelude::*;

verus! {

/// The map denoted by a sequence of id/value entries; later entries win.
pub open spec fn id_map<T>(s: Seq<(u128, T)>) -> Map<u128, T>
    decreases s.len(),
{
    if s.len() == 0 {
        Map::empty()
    } else {
        id_map(s.drop_last()).insert(s.last().0, s.last().1)
    }
}

/// Pairwise-distinct identifiers.
pub open spec fn unique_ids<T>(s: Seq<(u128, T)>) -> bool {
    forall|i: int, j: int| 0 <= i < j < s.len() ==> s[i].0 != s[j].0
}

pub proof fn lemma_id_map_unique_drop_last<T>(s: Seq<(u128, T)>)
    requires
        unique_ids(s),
        s.len() > 0,
    ensures
        unique_ids(s.drop_last()),
{
    assert forall|a: int, b: int| 0 <= a < b < s.drop_last().len() implies s.drop_last()[a].0
        != s.drop_last()[b].0 by {
        assert(s.drop_last()[a] == s[a]);
        assert(s.drop_last()[b] == s[b]);
    }
}

/// The entry at any index is in the map, with its value, when ids are unique.
pub proof fn lemma_id_map_index<T>(s: Seq<(u128, T)>, i: int)
    requires
        unique_ids(s),
        0 <= i < s.len(),
    ensures
        id_map(s).contains_key(s[i].0),
        id_map(s)[s[i].0] == s[i].1,
    decreases s.len(),
{
    if i == s.len() - 1 {
    } else {
        lemma_id_map_unique_drop_last(s);
        assert(s.drop_last()[i] == s[i]);
        lemma_id_map_index(s.drop_last(), i);
        assert(s[i].0 != s.last().0);
    }
}

/// An id occurring at no index is not in the map.
pub proof fn lemma_id_map_absent<T>(s: Seq<(u128, T)>, k: u128)
    requires
        forall|i: int| 0 <= i < s.len() ==> s[i].0 != k,
    ensures
        !id_map(s).contains_key(k),
    decreases s.len(),
{
    if s.len() > 0 {
        assert forall|i: int| 0 <= i < s.drop_last().len() implies s.drop_last()[i].0 != k by {
            assert(s.drop_last()[i] == s[i]);
        }
        lemma_id_map_absent(s.drop_last(), k);
        assert(s.last() == s[s.len() - 1]);
    }
}

/// Replacing the entry at `i` with one under the same id updates the map.
pub proof fn lemma_id_map_update<T>(s: Seq<(u128, T)>, i: int, v: T)
    requires
        unique_ids(s),
        0 <= i < s.len(),
    ensures
        id_map(s.update(i, (s[i].0, v))) == id_map(s).insert(s[i].0, v),
        unique_ids(s.update(i, (s[i].0, v))),
    decreases s.len(),
{
    let t = s.update(i, (s[i].0, v));
    assert forall|a: int, b: int| 0 <= a < b < t.len() implies t[a].0 != t[b].0 by {
        assert(t[a].0 == s[a].0);
        assert(t[b].0 == s[b].0);
    }
    if i == s.len() - 1 {
        assert(t.drop_last() =~= s.drop_last());
        assert(id_map(t) == id_map(s.drop_last()).insert(s[i].0, v));
        assert(id_map(s.drop_last()).insert(s.last().0, s.last().1).insert(s[i].0, v)
            =~= id_map(s.drop_last()).insert(s[i].0, v));
    } else {
        lemma_id_map_unique_drop_last(s);
        assert(s.drop_last()[i] == s[i]);
        lemma_id_map_update(s.drop_last(), i, v);
        assert(t.drop_last() =~= s.drop_last().update(i, (s[i].0, v)));
        assert(t.last() == s.last());
        assert(s[i].0 != s.last().0);
        assert(id_map(s.drop_last()).insert(s[i].0, v).insert(s.last().0, s.last().1)
            =~= id_map(s.drop_last()).insert(s.last().0, s.last().1).insert(s[i].0, v));
    }
}

/// Appending an entry under a fresh id extends the map.
pub proof fn lemma_id_map_push<T>(s: Seq<(u128, T)>, p: (u128, T))
    ensures
        id_map(s.push(p)) == id_map(s).insert(p.0, p.1),
{
    assert(s.push(p).drop_last() =~= s);
    assert(s.push(p).last() == p);
}

/// Removing the entry at `i` removes its id from the map.
pub proof fn lemma_id_map_remove<T>(s: Seq<(u128, T)>, i: int)
    requires
        unique_ids(s),
        0 <= i < s.len(),
    ensures
        id_map(s.remove(i)) == id_map(s).remove(s[i].0),
        unique_ids(s.remove(i)),
    decreases s.len(),
{
    let t = s.remove(i);
    assert forall|a: int, b: int| 0 <= a < b < t.len() implies t[a].0 != t[b].0 by {
        if a < i {
            assert(t[a] == s[a]);
        } else {
            assert(t[a] == s[a + 1]);
        }
        if b < i {
            assert(t[b] == s[b]);
        } else {
            assert(t[b] == s[b + 1]);
        }
    }
    if i == s.len() - 1 {
        assert(t =~= s.drop_last());
        assert forall|x: int| 0 <= x < s.drop_last().len() implies s.drop_last()[x].0
            != s[i].0 by {
            assert(s.drop_last()[x] == s[x]);
        }
        lemma_id_map_absent(s.drop_last(), s[i].0);
        assert(id_map(s.drop_last()) =~= id_map(s.drop_last()).insert(s.last().0,
            s.last().1).remove(s[i].0));
    } else {
        lemma_id_map_unique_drop_last(s);
        assert(s.drop_last()[i] == s[i]);
        lemma_id_map_remove(s.drop_last(), i);
        assert(t.drop_last() =~= s.drop_last().remove(i));
        assert(t.last() == s.last());
        assert(s[i].0 != s.last().0);
        assert(id_map(s.drop_last()).remove(s[i].0).insert(s.last().0, s.last().1)
            =~= id_map(s.drop_last()).insert(s.last().0, s.last().1).remove(s[i].0));
    }
}

/// A store of values keyed by unique `u128` identifiers.
pub struct IdMap<V> {
    pub entries: Vec<(u128, V)>,
}

impl<V: DeepView> IdMap<V> {
    /// The map this store denotes.
    pub open spec fn m(self) -> Map<u128, V::V> {
        id_map(self.entries.deep_view())
    }

    /// Identifiers are pairwise distinct.
    pub open spec fn wf(self) -> bool {
        unique_ids(self.entries.deep_view())
    }

    pub fn new() -> (r: Self)
        ensures
            r.wf(),
            r.m() == Map::<u128, V::V>::empty(),
    {
        let r = IdMap { entries: Vec::new() };
        proof {
            assert(r.entries.deep_view() =~= Seq::<(u128, V::V)>::empty());
            assert(r.m() =~= Map::<u128, V::V>::empty());
        }
        r
    }

    /// The index holding `id`, if any.
    fn find(&self, id: u128) -> (r: Option<usize>)
        ensures
            match r {
                Some(i) => i < self.entries@.len() && self.entries.deep_view()[i as int].0 == id,
                None => forall|j: int|
                    0 <= j < self.entries@.len() ==> self.entries.deep_view()[j].0 != id,
            },
    {
        let mut i: usize = 0;
        while i < self.entries.len()
            invariant
                i <= self.entries@.len(),
                forall|j: int| 0 <= j < i ==> self.entries.deep_view()[j].0 != id,
            decreases self.entries@.len() - i,
        {
            if self.entries[i].0 == id {
                return Some(i);
            }
            i = i + 1;
        }
        None
    }

    pub fn contains(&self, id: u128) -> (r: bool)
        requires
            self.wf(),
        ensures
            r == self.m().contains_key(id),
    {
        match self.find(id) {
            Some(i) => {
                proof {
                    lemma_id_map_index(self.entries.deep_view(), i as int);
                }
                true
            },
            None => {
                proof {
                    lemma_id_map_absent(self.entries.deep_view(), id);
                }
                false
            },
        }
    }

    /// Looks up the value stored under `id`.
    pub fn get(&self, id: u128) -> (r: Option<&V>)
        requires
            self.wf(),
        ensures
            match r {
                Some(v) => self.m().contains_key(id) && v.deep_view() == self.m()[id],
                None => !self.m().contains_key(id),
            },
    {
        match self.find(id) {
            Some(i) => {
                proof {
                    lemma_id_map_index(self.entries.deep_view(), i as int);
                }
                Some(&self.entries[i].1)
            },
            None => {
                proof {
                    lemma_id_map_absent(self.entries.deep_view(), id);
                }
                None
            },
        }
    }

    /// Inserts or replaces the value under `id`.
    pub fn insert(&mut self, id: u128, v: V)
        requires
            old(self).wf(),
        ensures
            final(self).wf(),
            final(self).m() == old(self).m().insert(id, v.deep_view()),
    {
        let ghost s = self.entries.deep_view();
        match self.find(id) {
            Some(i) => {
                self.entries.set(i, (id, v));
                proof {
                    assert(self.entries.deep_view() =~~= s.update(i as int, (id, v.deep_view())));
                    assert(s[i as int].0 == id);
                    lemma_id_map_update(s, i as int, v.deep_view());
                }
            },
            None => {
                self.entries.push((id, v));
                proof {
                    assert(self.entries.deep_view() =~~= s.push((id, v.deep_view())));
                    lemma_id_map_push(s, (id, v.deep_view()));
                    assert forall|a: int, b: int|
                        0 <= a < b < self.entries.deep_view().len() implies self.entries.deep_view()[a].0
                        != self.entries.deep_view()[b].0 by {
                        if b == s.len() {
                            assert(self.entries.deep_view()[a] == s[a]);
                        } else {
                            assert(self.entries.deep_view()[a] == s[a]);
                            assert(self.entries.deep_view()[b] == s[b]);
                        }
                    }
                }
            },
        }
    }

    /// Removes the value under `id`, if present.
    pub fn remove(&mut self, id: u128)
        requires
            old(self).wf(),
        ensures
            final(self).wf(),
            final(self).m() == old(self).m().remove(id),
    {
        let ghost s = self.entries.deep_view();
        match self.find(id) {
            Some(i) => {
                self.entries.remove(i);
                proof {
                    assert(self.entries.deep_view() =~~= s.remove(i as int));
                    assert(s[i as int].0 == id);
                    lemma_id_map_remove(s, i as int);
                }
            },
            None => {
                proof {
                    lemma_id_map_absent(s, id);
                    assert(old(self).m().remove(id) =~= old(self).m());
                }
            },
        }
    }
}

/// The registry map denoted by a sequence of assets, keyed by full path.
pub open spec fn path_map(s: Seq<AssetV>) -> Map<Seq<char>, AssetV>
    decreases s.len(),
{
    if s.len() == 0 {
        Map::empty()
    } else {
        path_map(s.drop_last()).insert(s.last().key.full_path, s.last())
    }
}

/// Pairwise-distinct full paths.
pub open spec fn unique_paths(s: Seq<AssetV>) -> bool {
    forall|i: int, j: int| 0 <= i < j < s.len() ==> s[i].key.full_path != s[j].key.full_path
}

pub proof fn lemma_path_map_unique_drop_last(s: Seq<AssetV>)
    requires
        unique_paths(s),
        s.len() > 0,
    ensures
        unique_paths(s.drop_last()),
{
    assert forall|a: int, b: int| 0 <= a < b < s.drop_last().len() implies s.drop_last()[a].key.full_path
        != s.drop_last()[b].key.full_path by {
        assert(s.drop_last()[a] == s[a]);
        assert(s.drop_last()[b] == s[b]);
    }
}

/// The asset at any index is in the registry map, when paths are unique.
pub proof fn lemma_path_map_index(s: Seq<AssetV>, i: int)
    requires
        unique_paths(s),
        0 <= i < s.len(),
    ensures
        path_map(s).contains_key(s[i].key.full_path),
        path_map(s)[s[i].key.full_path] == s[i],
    decreases s.len(),
{
    if i == s.len() - 1 {
    } else {
        lemma_path_map_unique_drop_last(s);
        assert(s.drop_last()[i] == s[i]);
        lemma_path_map_index(s.drop_last(), i);
        assert(s[i].key.full_path != s.last().key.full_path);
    }
}

/// A path occurring at no index is not in the registry map.
pub proof fn lemma_path_map_absent(s: Seq<AssetV>, p: Seq<char>)
    requires
        forall|i: int| 0 <= i < s.len() ==> s[i].key.full_path != p,
    ensures
        !path_map(s).contains_key(p),
    decreases s.len(),
{
    if s.len() > 0 {
        assert forall|i: int| 0 <= i < s.drop_last().len() implies s.drop_last()[i].key.full_path
            != p by {
            assert(s.drop_last()[i] == s[i]);
        }
        lemma_path_map_absent(s.drop_last(), p);
        assert(s.last() == s[s.len() - 1]);
    }
}

/// Every path of the registry map occurs at some index.
pub proof fn lemma_path_map_contains(s: Seq<AssetV>, p: Seq<char>) -> (i: int)
    requires
        path_map(s).contains_key(p),
    ensures
        0 <= i < s.len(),
        s[i].key.full_path == p,
        unique_paths(s) ==> path_map(s)[p] == s[i],
    decreases s.len(),
{
    if s.len() == 0 {
        0
    } else if s.last().key.full_path == p {
        if unique_paths(s) {
            lemma_path_map_index(s, s.len() - 1);
        }
        s.len() - 1
    } else {
        lemma_path_map_unique_drop_last_if(s);
        let i = lemma_path_map_contains(s.drop_last(), p);
        assert(s.drop_last()[i] == s[i]);
        if unique_paths(s) {
            lemma_path_map_index(s, i);
        }
        i
    }
}

proof fn lemma_path_map_unique_drop_last_if(s: Seq<AssetV>)
    requires
        s.len() > 0,
    ensures
        unique_paths(s) ==> unique_paths(s.drop_last()),
{
    if unique_paths(s) {
        lemma_path_map_unique_drop_last(s);
    }
}

/// One registry key per stored asset, when paths are unique.
pub proof fn lemma_path_map_len(s: Seq<AssetV>)
    requires
        unique_paths(s),
    ensures
        path_map(s).dom().finite(),
        path_map(s).dom().len() == s.len(),
    decreases s.len(),
{
    if s.len() > 0 {
        lemma_path_map_unique_drop_last(s);
        lemma_path_map_len(s.drop_last());
        assert forall|i: int| 0 <= i < s.drop_last().len() implies s.drop_last()[i].key.full_path
            != s.last().key.full_path by {
            assert(s.drop_last()[i] == s[i]);
        }
        lemma_path_map_absent(s.drop_last(), s.last().key.full_path);
    }
}

/// Replacing the asset at `i` with one under the same path updates the map.
pub proof fn lemma_path_map_update(s: Seq<AssetV>, i: int, v: AssetV)
    requires
        unique_paths(s),
        0 <= i < s.len(),
        v.key.full_path == s[i].key.full_path,
    ensures
        path_map(s.update(i, v)) == path_map(s).insert(v.key.full_path, v),
        unique_paths(s.update(i, v)),
    decreases s.len(),
{
    let t = s.update(i, v);
    assert forall|a: int, b: int| 0 <= a < b < t.len() implies t[a].key.full_path
        != t[b].key.full_path by {
        assert(t[a].key.full_path == s[a].key.full_path);
        assert(t[b].key.full_path == s[b].key.full_path);
    }
    if i == s.len() - 1 {
        assert(t.drop_last() =~= s.drop_last());
        assert(path_map(s.drop_last()).insert(s.last().key.full_path, s.last()).insert(
            v.key.full_path,
            v,
        ) =~= path_map(s.drop_last()).insert(v.key.full_path, v));
    } else {
        lemma_path_map_unique_drop_last(s);
        assert(s.drop_last()[i] == s[i]);
        lemma_path_map_update(s.drop_last(), i, v);
        assert(t.drop_last() =~= s.drop_last().update(i, v));
        assert(t.last() == s.last());
        assert(s[i].key.full_path != s.last().key.full_path);
        assert(path_map(s.drop_last()).insert(v.key.full_path, v).insert(s.last().key.full_path,
            s.last()) =~= path_map(s.drop_last()).insert(s.last().key.full_path, s.last()).insert(
            v.key.full_path,
            v,
        ));
    }
}

/// Appending an asset under a fresh path extends the map.
pub proof fn lemma_path_map_push(s: Seq<AssetV>, v: AssetV)
    ensures
        path_map(s.push(v)) == path_map(s).insert(v.key.full_path, v),
{
    assert(s.push(v).drop_last() =~= s);
    assert(s.push(v).last() == v);
}

/// Removing the asset at `i` removes its path from the map.
pub proof fn lemma_path_map_remove(s: Seq<AssetV>, i: int)
    requires
        unique_paths(s),
        0 <= i < s.len(),
    ensures
        path_map(s.remove(i)) == path_map(s).remove(s[i].key.full_path),
        unique_paths(s.remove(i)),
    decreases s.len(),
{
    let t = s.remove(i);
    assert forall|a: int, b: int| 0 <= a < b < t.len() implies t[a].key.full_path
        != t[b].key.full_path by {
        if a < i {
            assert(t[a] == s[a]);
        } else {
            assert(t[a] == s[a + 1]);
        }
        if b < i {
            assert(t[b] == s[b]);
        } else {
            assert(t[b] == s[b + 1]);
        }
    }
    if i == s.len() - 1 {
        assert(t =~= s.drop_last());
        assert forall|x: int| 0 <= x < s.drop_last().len() implies s.drop_last()[x].key.full_path
            != s[i].key.full_path by {
            assert(s.drop_last()[x] == s[x]);
        }
        lemma_path_map_absent(s.drop_last(), s[i].key.full_path);
        assert(path_map(s.drop_last()) =~= path_map(s.drop_last()).insert(s.last().key.full_path,
            s.last()).remove(s[i].key.full_path));
    } else {
        lemma_path_map_unique_drop_last(s);
        assert(s.drop_last()[i] == s[i]);
        lemma_path_map_remove(s.drop_last(), i);
        assert(t.drop_last() =~= s.drop_last().remove(i));
        assert(t.last() == s.last());
        assert(s[i].key.full_path != s.last().key.full_path);
        assert(path_map(s.drop_last()).remove(s[i].key.full_path).insert(s.last().key.full_path,
            s.last()) =~= path_map(s.drop_last()).insert(s.last().key.full_path, s.last()).remove(
            s[i].key.full_path,
        ));
    }
}

/// The registry of committed assets, keyed by each asset's full path.
pub struct Assets {
    pub list: Vec<Asset>,
}

impl Assets {
    /// The path-to-asset map this registry denotes.
    pub open spec fn m(self) -> Map<Seq<char>, AssetV> {
        path_map(self.list.deep_view())
    }

    /// Full paths are pairwise distinct.
    pub open spec fn wf(self) -> bool {
        unique_paths(self.list.deep_view())
    }

    pub fn new() -> (r: Self)
        ensures
            r.wf(),
            r.m() == Map::<Seq<char>, AssetV>::empty(),
    {
        let r = Assets { list: Vec::new() };
        proof {
            assert(r.list.deep_view() =~= Seq::<AssetV>::empty());
            assert(r.m() =~= Map::<Seq<char>, AssetV>::empty());
        }
        r
    }

    /// The index of the asset at `path`, if any.
    fn find(&self, path: &str) -> (r: Option<usize>)
        ensures
            match r {
                Some(i) => i < self.list@.len() && self.list.deep_view()[i as int].key.full_path
                    == path@,
                None => forall|j: int|
                    0 <= j < self.list@.len() ==> self.list.deep_view()[j].key.full_path != path@,
            },
    {
        let mut i: usize = 0;
        while i < self.list.len()
            invariant
                i <= self.list@.len(),
                forall|j: int| 0 <= j < i ==> self.list.deep_view()[j].key.full_path != path@,
            decreases self.list@.len() - i,
        {
            if str_eq(self.list[i].key.full_path.as_str(), path) {
                return Some(i);
            }
            i = i + 1;
        }
        None
    }

    /// Looks up the asset committed at `path`.
    pub fn get(&self, path: &str) -> (r: Option<&Asset>)
        requires
            self.wf(),
        ensures
            match r {
                Some(a) => self.m().contains_key(path@) && a@ == self.m()[path@],
                None => !self.m().contains_key(path@),
            },
    {
        match self.find(path) {
            Some(i) => {
                proof {
                    lemma_path_map_index(self.list.deep_view(), i as int);
                }
                Some(&self.list[i])
            },
            None => {
                proof {
                    lemma_path_map_absent(self.list.deep_view(), path@);
                }
                None
            },
        }
    }

    /// Inserts or replaces the asset at its own full path.
    pub fn insert(&mut self, asset: Asset)
        requires
            old(self).wf(),
        ensures
            final(self).wf(),
            final(self).m() == old(self).m().insert(asset@.key.full_path, asset@),
    {
        let ghost s = self.list.deep_view();
        let path = asset.key.full_path.clone();
        match self.find(path.as_str()) {
            Some(i) => {
                proof {
                    assert(s[i as int].key.full_path == asset@.key.full_path);
                }
                self.list.set(i, asset);
                proof {
                    assert(self.list.deep_view() =~~= s.update(i as int, self.list.deep_view()[i as int]));
                    lemma_path_map_update(s, i as int, self.list.deep_view()[i as int]);
                }
            },
            None => {
                self.list.push(asset);
                proof {
                    let t = self.list.deep_view();
                    assert(t =~~= s.push(t[s.len() as int]));
                    lemma_path_map_push(s, t[s.len() as int]);
                    assert forall|a: int, b: int| 0 <= a < b < t.len() implies t[a].key.full_path
                        != t[b].key.full_path by {
                        if b == s.len() {
                            assert(t[a] == s[a]);
                        } else {
                            assert(t[a] == s[a]);
                            assert(t[b] == s[b]);
                        }
                    }
                }
            },
        }
    }

    /// Removes and returns the asset at `path`, if any.
    pub fn remove(&mut self, path: &str) -> (r: Option<Asset>)
        requires
            old(self).wf(),
        ensures
            final(self).wf(),
            match r {
                Some(a) => {
                    &&& old(self).m().contains_key(path@)
                    &&& a@ == old(self).m()[path@]
                    &&& final(self).m() == old(self).m().remove(path@)
                },
                None => {
                    &&& !old(self).m().contains_key(path@)
                    &&& final(self).m() == old(self).m()
                },
            },
    {
        let ghost s = self.list.deep_view();
        match self.find(path) {
            Some(i) => {
                proof {
                    lemma_path_map_index(s, i as int);
                }
                let a = self.list.remove(i);
                proof {
                    assert(self.list.deep_view() =~~= s.remove(i as int));
                    lemma_path_map_remove(s, i as int);
                }
                Some(a)
            },
            None => {
                proof {
                    lemma_path_map_absent(s, path@);
                }
                None
            },
        }
    }

    /// The number of committed assets.
    pub fn len(&self) -> (r: usize)
        requires
            self.wf(),
        ensures
            r == self.m().dom().len(),
    {
        proof {
            lemma_path_map_len(self.list.deep_view());
        }
        self.list.len()
    }
}

} // verus!
