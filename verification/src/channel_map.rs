//! A small map from channel names to per-channel data (chat history, user
//! lists, muted users), viewed as a `Map` from names to the data's views.
use vstd::prelude::*;
use crate::text::{remove_all, same_text, texts, without};

verus! {

/// The map that a list of entries gives, a later entry replacing an earlier
/// one with the same name.
pub open spec fn entry_map<T: DeepView>(e: Seq<(String, T)>) -> Map<Seq<char>, T::V>
    decreases e.len(),
{
    if e.len() == 0 {
        Map::empty()
    } else {
        entry_map(e.drop_last()).insert(e.last().0@, e.last().1.deep_view())
    }
}

/// The entries of `e` whose name is not `k`, in order.
pub open spec fn drop_key<T>(e: Seq<(String, T)>, k: Seq<char>) -> Seq<(String, T)>
    decreases e.len(),
{
    if e.len() == 0 {
        e
    } else if e.last().0@ == k {
        drop_key(e.drop_last(), k)
    } else {
        drop_key(e.drop_last(), k).push(e.last())
    }
}

/// Data kept per channel name.
pub struct ChannelMap<T> {
    entries: Vec<(String, T)>,
}

impl<T: DeepView> View for ChannelMap<T> {
    type V = Map<Seq<char>, T::V>;

    closed spec fn view(&self) -> Map<Seq<char>, T::V> {
        entry_map(self.entries@)
    }
}

proof fn lemma_entry_map_lookup<T: DeepView>(e: Seq<(String, T)>, k: Seq<char>, i: int)
    requires
        -1 <= i < e.len(),
        forall|j: int| i < j < e.len() ==> (#[trigger] e[j]).0@ != k,
        i >= 0 ==> e[i].0@ == k,
    ensures
        i >= 0 ==> entry_map(e).contains_key(k) && entry_map(e)[k] == e[i].1.deep_view(),
        i < 0 ==> !entry_map(e).contains_key(k),
    decreases e.len(),
{
    if e.len() > 0 && i != e.len() - 1 {
        assert forall|j: int| i < j < e.drop_last().len() implies (#[trigger] e.drop_last()[j]).0@
            != k by {
            assert(e.drop_last()[j] == e[j]);
        }
        lemma_entry_map_lookup(e.drop_last(), k, i);
        assert(e.last().0@ != k);
    }
}

proof fn lemma_drop_key<T: DeepView>(e: Seq<(String, T)>, k: Seq<char>)
    ensures
        entry_map(drop_key(e, k)) == entry_map(e).remove(k),
    decreases e.len(),
{
    if e.len() == 0 {
        assert(entry_map(e).remove(k) =~= Map::<Seq<char>, T::V>::empty());
    } else {
        lemma_drop_key(e.drop_last(), k);
        if e.last().0@ == k {
            assert(entry_map(e).remove(k) =~= entry_map(e.drop_last()).remove(k));
        } else {
            let d = drop_key(e.drop_last(), k);
            assert(d.push(e.last()).drop_last() =~= d);
            assert(entry_map(e).remove(k) =~= entry_map(e.drop_last()).remove(k).insert(
                e.last().0@,
                e.last().1.deep_view(),
            ));
        }
    }
}

impl<T: DeepView> ChannelMap<T> {
    /// No channels.
    pub fn new() -> (m: ChannelMap<T>)
        ensures
            m@ == Map::<Seq<char>, T::V>::empty(),
    {
        ChannelMap { entries: Vec::new() }
    }

    /// The data of `key`, if it has any.
    pub fn get(&self, key: &str) -> (r: Option<&T>)
        ensures
            r is Some <==> self@.contains_key(key@),
            r matches Some(t) ==> t.deep_view() == self@[key@],
    {
        let mut i: usize = self.entries.len();
        while i > 0
            invariant
                i <= self.entries.len(),
                forall|j: int| i <= j < self.entries@.len() ==> (#[trigger] self.entries@[j]).0@
                    != key@,
            decreases i,
        {
            if same_text(self.entries[i - 1].0.as_str(), key) {
                proof {
                    lemma_entry_map_lookup(self.entries@, key@, i - 1);
                }
                return Some(&self.entries[i - 1].1);
            }
            i -= 1;
        }
        proof {
            lemma_entry_map_lookup(self.entries@, key@, -1);
        }
        None
    }

    /// Takes the data of `key` out of the map, leaving no entry for `key`.
    pub fn take(&mut self, key: &str) -> (r: Option<T>)
        ensures
            final(self)@ == old(self)@.remove(key@),
            r is Some <==> old(self)@.contains_key(key@),
            r matches Some(t) ==> t.deep_view() == old(self)@[key@],
    {
        let ghost e = self.entries@;
        let mut old_entries: Vec<(String, T)> = Vec::new();
        std::mem::swap(&mut old_entries, &mut self.entries);
        let mut kept: Vec<(String, T)> = Vec::new();
        let mut found: Option<T> = None;
        let ghost mut found_at: int = -1;
        for entry in it: old_entries
            invariant
                it.seq() == e,
                kept@ == drop_key(e.take(it.index() as int), key@),
                -1 <= found_at < it.index(),
                found_at >= 0 ==> e[found_at].0@ == key@,
                forall|j: int| found_at < j < it.index() ==> (#[trigger] e[j]).0@ != key@,
                found is Some <==> found_at >= 0,
                found matches Some(t) ==> t == e[found_at].1,
        {
            let ghost idx = it.index() as int;
            assert(e.take(idx + 1).drop_last() =~= e.take(idx));
            assert(e.take(idx + 1).last() == e[idx]);
            assert(entry == e[idx]);
            if same_text(entry.0.as_str(), key) {
                found = Some(entry.1);
                proof {
                    found_at = idx;
                }
            } else {
                kept.push(entry);
            }
        }
        assert(e.take(e.len() as int) =~= e);
        proof {
            lemma_drop_key(e, key@);
            lemma_entry_map_lookup(e, key@, found_at);
        }
        self.entries = kept;
        found
    }

    /// Removes the entry of `key`, if there is one.
    pub fn remove(&mut self, key: &str)
        ensures
            final(self)@ == old(self)@.remove(key@),
    {
        let _ = self.take(key);
    }

    /// Sets the data of `key`, replacing what it had.
    pub fn insert(&mut self, key: String, value: T)
        ensures
            final(self)@ == old(self)@.insert(key@, value.deep_view()),
    {
        let _ = self.take(key.as_str());
        let ghost before = self.entries@;
        let ghost k = key@;
        let ghost v = value.deep_view();
        self.entries.push((key, value));
        assert(self.entries@.drop_last() =~= before);
        assert(entry_map(self.entries@) =~= entry_map(before).insert(k, v));
    }
}

/// Each list of names viewed as texts: the list's deep view.
pub proof fn lemma_texts_deep_view(v: Vec<String>)
    ensures
        v.deep_view() == texts(v@),
{
    assert(v.deep_view() =~= texts(v@));
}

impl ChannelMap<Vec<String>> {
    /// Removes `x` from every channel's list, keeping the channels.
    pub fn remove_from_all(&mut self, x: &str)
        ensures
            final(self)@.dom() == old(self)@.dom(),
            forall|k: Seq<char>|
                #![trigger final(self)@[k]]
                old(self)@.contains_key(k) ==> final(self)@[k] == without(old(self)@[k], x@),
    {
        let ghost e = self.entries@;
        let mut old_entries: Vec<(String, Vec<String>)> = Vec::new();
        std::mem::swap(&mut old_entries, &mut self.entries);
        let mut kept: Vec<(String, Vec<String>)> = Vec::new();
        for entry in it: old_entries
            invariant
                it.seq() == e,
                kept@.len() == it.index(),
                forall|j: int|
                    0 <= j < it.index() ==> (#[trigger] kept@[j]).0 == e[j].0 && kept@[j].1.deep_view()
                        == without(e[j].1.deep_view(), x@),
        {
            let ghost idx = it.index() as int;
            assert(entry == e[idx]);
            let list = remove_all(&entry.1, x);
            proof {
                lemma_texts_deep_view(list);
                lemma_texts_deep_view(entry.1);
            }
            kept.push((entry.0, list));
        }
        proof {
            lemma_entry_map_transformed(e, kept@, x@);
        }
        self.entries = kept;
    }
}

proof fn lemma_entry_map_transformed(
    e: Seq<(String, Vec<String>)>,
    f: Seq<(String, Vec<String>)>,
    x: Seq<char>,
)
    requires
        e.len() == f.len(),
        forall|j: int|
            0 <= j < e.len() ==> (#[trigger] f[j]).0 == e[j].0 && f[j].1.deep_view() == without(
                e[j].1.deep_view(),
                x,
            ),
    ensures
        entry_map(f).dom() == entry_map(e).dom(),
        forall|k: Seq<char>|
            #![trigger entry_map(f)[k]]
            entry_map(e).contains_key(k) ==> entry_map(f)[k] == without(entry_map(e)[k], x),
    decreases e.len(),
{
    if e.len() > 0 {
        assert forall|j: int| 0 <= j < e.drop_last().len() implies (#[trigger] f.drop_last()[j]).0
            == e.drop_last()[j].0 && f.drop_last()[j].1.deep_view() == without(
            e.drop_last()[j].1.deep_view(),
            x,
        ) by {
            assert(f.drop_last()[j] == f[j]);
            assert(e.drop_last()[j] == e[j]);
        }
        lemma_entry_map_transformed(e.drop_last(), f.drop_last(), x);
        assert(f.last() == f[f.len() - 1]);
        assert(e.last() == e[e.len() - 1]);
        assert(entry_map(f).dom() =~= entry_map(e).dom());
    }
}

} // verus!
