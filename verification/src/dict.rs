//! A map keyed by strings, kept as the list of its entries.
//!
//! Where a key is listed twice, the later entry is the one that counts.
use crate::text;
use vstd::prelude::*;

verus! {

/// What a list of entries says, the later entry for a key overriding the earlier.
pub open spec fn entries_map<V>(entries: Seq<(String, V)>) -> Map<Seq<char>, V>
    decreases entries.len(),
{
    if entries.len() == 0 {
        Map::empty()
    } else {
        entries_map(entries.drop_last()).insert(entries.last().0@, entries.last().1)
    }
}

/// The keys that entries name, each once, in the order they first appear.
pub open spec fn entry_keys<V>(entries: Seq<(String, V)>) -> Seq<Seq<char>>
    decreases entries.len(),
{
    if entries.len() == 0 {
        Seq::empty()
    } else {
        let earlier = entry_keys(entries.drop_last());
        if earlier.contains(entries.last().0@) {
            earlier
        } else {
            earlier.push(entries.last().0@)
        }
    }
}

/// The keys of a list of entries are those of the map it stands for, each once.
pub proof fn lemma_entry_keys<V>(entries: Seq<(String, V)>)
    ensures
        entry_keys(entries).no_duplicates(),
        forall|k: Seq<char>| #[trigger]
            entry_keys(entries).contains(k) <==> entries_map(entries).contains_key(k),
    decreases entries.len(),
{
    if entries.len() > 0 {
        let earlier = entry_keys(entries.drop_last());
        let last = entries.last().0@;
        lemma_entry_keys(entries.drop_last());
        assert forall|k: Seq<char>| #[trigger]
            entry_keys(entries).contains(k) <==> entries_map(entries).contains_key(k) by {
            assert(earlier.contains(k) <==> entries_map(entries.drop_last()).contains_key(k));
            if !earlier.contains(last) {
                let all = earlier.push(last);
                if all.contains(k) {
                    let i = choose|i: int| 0 <= i < all.len() && all[i] == k;
                    if i < earlier.len() {
                        assert(earlier[i] == k);
                    }
                }
                if earlier.contains(k) {
                    let i = choose|i: int| 0 <= i < earlier.len() && earlier[i] == k;
                    assert(all[i] == k);
                }
                assert(all[earlier.len() as int] == last);
            }
        }
    }
}

/// A map from strings to `V`.
#[derive(Debug, PartialEq)]
pub struct Dict<V> {
    pub entries: Vec<(String, V)>,
}

impl<V> View for Dict<V> {
    type V = Map<Seq<char>, V>;

    open spec fn view(&self) -> Map<Seq<char>, V> {
        entries_map(self.entries@)
    }
}

pub proof fn lemma_entries_push<V>(entries: Seq<(String, V)>, e: (String, V))
    ensures
        entries_map(entries.push(e)) == entries_map(entries).insert(e.0@, e.1),
{
    assert(entries.push(e).drop_last() =~= entries);
}

/// A key is in the map exactly when some entry names it, and the last such entry gives
/// its value.
pub proof fn lemma_entries_lookup<V>(entries: Seq<(String, V)>, k: Seq<char>, i: int)
    requires
        0 <= i < entries.len(),
        entries[i].0@ == k,
        forall|j: int| i < j < entries.len() ==> (#[trigger] entries[j]).0@ != k,
    ensures
        entries_map(entries).contains_key(k),
        entries_map(entries)[k] == entries[i].1,
    decreases entries.len(),
{
    if i < entries.len() - 1 {
        assert(entries.last() == entries[entries.len() - 1]);
        lemma_entries_lookup(entries.drop_last(), k, i);
    }
}

/// A key that no entry names is not in the map.
pub proof fn lemma_entries_absent<V>(entries: Seq<(String, V)>, k: Seq<char>)
    requires
        forall|j: int| 0 <= j < entries.len() ==> (#[trigger] entries[j]).0@ != k,
    ensures
        !entries_map(entries).contains_key(k),
    decreases entries.len(),
{
    if entries.len() > 0 {
        assert(entries.last() == entries[entries.len() - 1]);
        lemma_entries_absent(entries.drop_last(), k);
    }
}

impl<V> Dict<V> {
    /// The empty map.
    pub fn new() -> (r: Self)
        ensures
            r@ == Map::<Seq<char>, V>::empty(),
            r.entries@.len() == 0,
    {
        Dict { entries: Vec::new() }
    }

    /// The position of the entry that counts for `key`.
    fn position(&self, key: &str) -> (r: Option<usize>)
        ensures
            match r {
                Some(i) => i < self.entries@.len() && self@.contains_key(key@)
                    && self@[key@] == self.entries@[i as int].1,
                None => !self@.contains_key(key@),
            },
    {
        let mut i: usize = self.entries.len();
        while i > 0
            invariant
                i <= self.entries@.len(),
                forall|j: int| i <= j < self.entries@.len() ==> (#[trigger] self.entries@[j]).0@ != key@,
            decreases i,
        {
            i -= 1;
            if text::same(self.entries[i].0.as_str(), key) {
                proof {
                    lemma_entries_lookup(self.entries@, key@, i as int);
                }
                return Some(i);
            }
        }
        proof {
            lemma_entries_absent(self.entries@, key@);
        }
        None
    }

    /// The value for `key`.
    pub fn get(&self, key: &str) -> (r: Option<&V>)
        ensures
            match r {
                Some(v) => self@.contains_key(key@) && *v == self@[key@],
                None => !self@.contains_key(key@),
            },
    {
        match self.position(key) {
            Some(i) => Some(&self.entries[i].1),
            None => None,
        }
    }

    /// Whether nothing has a value.
    pub fn is_empty(&self) -> (r: bool)
        ensures
            r == (self@ == Map::<Seq<char>, V>::empty()),
    {
        if self.entries.len() > 0 {
            assert(self@.contains_key(self.entries@.last().0@));
            false
        } else {
            true
        }
    }

    /// The keys, each once.
    pub fn keys(&self) -> (r: Vec<String>)
        ensures
            text::texts(r@) == entry_keys(self.entries@),
    {
        let mut out: Vec<String> = Vec::new();
        for i in 0..self.entries.len()
            invariant
                text::texts(out@) == entry_keys(self.entries@.take(i as int)),
        {
            let ghost all = self.entries@;
            assert(all.take(i + 1).drop_last() =~= all.take(i as int));
            if !text::one_of(&out, self.entries[i].0.as_str()) {
                let ghost before = text::texts(out@);
                out.push(self.entries[i].0.clone());
                assert(text::texts(out@) =~= before.push(all[i as int].0@));
            }
        }
        assert(self.entries@.take(self.entries@.len() as int) =~= self.entries@);
        out
    }

    /// Whether `key` has a value.
    pub fn contains_key(&self, key: &str) -> (r: bool)
        ensures
            r == self@.contains_key(key@),
    {
        self.position(key).is_some()
    }

    /// Takes every entry for `key` out.
    pub fn remove(&mut self, key: &str)
        ensures
            final(self)@ == old(self)@.remove(key@),
    {
        let mut kept: Vec<(String, V)> = Vec::new();
        let mut rest: Vec<(String, V)> = Vec::new();
        core::mem::swap(&mut rest, &mut self.entries);
        let ghost all = rest@;
        for e in it: rest.into_iter()
            invariant
                it.seq() == all,
                entries_map(kept@) == entries_map(all.take(it.index() as int)).remove(key@),
        {
            proof {
                let i = it.index() as int;
                assert(all.take(i + 1) =~= all.take(i).push(all[i]));
                lemma_entries_push(all.take(i), all[i]);
                lemma_entries_push(kept@, all[i]);
                if all[i].0@ == key@ {
                    assert(entries_map(all.take(i + 1)).remove(key@) =~= entries_map(all.take(i)).remove(key@));
                } else {
                    assert(entries_map(all.take(i + 1)).remove(key@) =~= entries_map(all.take(i)).remove(key@).insert(all[i].0@, all[i].1));
                }
            }
            if !text::same(e.0.as_str(), key) {
                kept.push(e);
            }
        }
        assert(all.take(all.len() as int) =~= all);
        self.entries = kept;
    }

    /// Gives `key` the value `value`, in place of any it had.
    pub fn insert(&mut self, key: String, value: V)
        ensures
            final(self)@ == old(self)@.insert(key@, value),
    {
        self.remove(key.as_str());
        proof {
            lemma_entries_push(self.entries@, (key, value));
            assert(old(self)@.remove(key@).insert(key@, value) =~= old(self)@.insert(key@, value));
        }
        self.entries.push((key, value));
    }
}

impl Dict<String> {
    /// What the values hold.
    pub open spec fn texts(&self) -> Map<Seq<char>, Seq<char>> {
        self@.map_values(|s: String| s@)
    }

    /// A copy.
    pub fn copy(&self) -> (r: Dict<String>)
        ensures
            r@ == self@,
    {
        let mut out: Dict<String> = Dict::new();
        out.extend(self);
        assert(out@ =~= self@);
        out
    }

    /// Gives each key of `other` the value it has there, in place of any it had.
    pub fn extend(&mut self, other: &Dict<String>)
        ensures
            final(self)@ == old(self)@.union_prefer_right(other@),
    {
        let ghost before = self@;
        let ghost all = other.entries@;
        assert(before.union_prefer_right(entries_map(all.take(0))) =~= before);
        for i in 0..other.entries.len()
            invariant
                all == other.entries@,
                self@ == before.union_prefer_right(entries_map(all.take(i as int))),
        {
            assert(all.take(i + 1).drop_last() =~= all.take(i as int));
            self.insert(other.entries[i].0.clone(), other.entries[i].1.clone());
            assert(self@ =~= before.union_prefer_right(entries_map(all.take(i + 1))));
        }
        assert(all.take(all.len() as int) =~= all);
    }

    /// The text for `key`.
    pub fn get_text(&self, key: &str) -> (r: Option<&str>)
        ensures
            match r {
                Some(s) => self.texts().contains_key(key@) && s@ == self.texts()[key@],
                None => !self.texts().contains_key(key@),
            },
    {
        match self.get(key) {
            Some(s) => Some(s.as_str()),
            None => None,
        }
    }
}

} // verus!
