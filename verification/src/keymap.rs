//! An insertion-ordered map and an insertion-ordered set of names.
//!
//! Both keep what was inserted first in front, and never hold a key twice.

use crate::text::same_text;
use crate::views::{views, views_push};
use vstd::prelude::*;

verus! {

/// What a type needs to serve as a key: two keys are the same when their views are.
pub trait MapKey: View + Sized {
    /// Whether two keys have the same view.
    fn same_key(&self, other: &Self) -> (same: bool)
        ensures
            same == (self@ == other@),
    ;

    /// A second key with the same view.
    fn copy_key(&self) -> (copy: Self)
        ensures
            copy@ == self@,
    ;
}

impl MapKey for String {
    fn same_key(&self, other: &Self) -> (same: bool) {
        same_text(self.as_str(), other.as_str())
    }

    fn copy_key(&self) -> (copy: Self) {
        self.as_str().to_owned()
    }
}

impl<A: MapKey, B: MapKey> MapKey for (A, B) {
    fn same_key(&self, other: &Self) -> (same: bool) {
        self.0.same_key(&other.0) && self.1.same_key(&other.1)
    }

    fn copy_key(&self) -> (copy: Self) {
        (self.0.copy_key(), self.1.copy_key())
    }
}

/// Whether some pair of `s` has the key `k`.
pub open spec fn has_key<A, B>(s: Seq<(A, B)>, k: A) -> bool {
    exists|i: int| 0 <= i < s.len() && #[trigger] s[i].0 == k
}

/// Whether no key occurs twice in `s`.
pub open spec fn unique_keys<A, B>(s: Seq<(A, B)>) -> bool {
    forall|i: int, j: int| 0 <= i < j < s.len() ==> #[trigger] s[i].0 != #[trigger] s[j].0
}

/// The value that `s` has for `k`; of several, the one that was written last.
pub open spec fn lookup<A, B>(s: Seq<(A, B)>, k: A) -> Option<B>
    decreases s.len(),
{
    if s.len() == 0 {
        None
    } else if s.last().0 == k {
        Some(s.last().1)
    } else {
        lookup(s.drop_last(), k)
    }
}

/// `s` after `k` was given the value `v`: in place where `k` is known, else at the end.
pub open spec fn put<A, B>(s: Seq<(A, B)>, k: A, v: B) -> Seq<(A, B)> {
    if has_key(s, k) {
        s.update(choose|i: int| 0 <= i < s.len() && #[trigger] s[i].0 == k, (k, v))
    } else {
        s.push((k, v))
    }
}

/// `base` after all pairs of `more` were put into it, from first to last.
pub open spec fn put_all<A, B>(base: Seq<(A, B)>, more: Seq<(A, B)>) -> Seq<(A, B)>
    decreases more.len(),
{
    if more.len() == 0 {
        base
    } else {
        put(put_all(base, more.drop_last()), more.last().0, more.last().1)
    }
}

/// A position that holds a key is what `lookup` finds for that key.
pub proof fn lookup_finds<A, B>(s: Seq<(A, B)>, i: int)
    requires
        unique_keys(s),
        0 <= i < s.len(),
    ensures
        lookup(s, s[i].0) == Some(s[i].1),
    decreases s.len(),
{
    if i < s.len() - 1 {
        let t = s.drop_last();
        assert(t[i] == s[i]);
        assert(s[i].0 != s[s.len() - 1].0);
        lookup_finds(t, i);
    }
}

/// `lookup` finds something exactly for the keys that occur.
pub proof fn lookup_is_some<A, B>(s: Seq<(A, B)>, k: A)
    ensures
        lookup(s, k) is Some <==> has_key(s, k),
    decreases s.len(),
{
    if s.len() > 0 {
        let t = s.drop_last();
        lookup_is_some(t, k);
        if s.last().0 == k {
            assert(s[s.len() - 1].0 == k);
        } else if has_key(t, k) {
            let i = choose|i: int| 0 <= i < t.len() && #[trigger] t[i].0 == k;
            assert(s[i].0 == k);
        } else if has_key(s, k) {
            let i = choose|i: int| 0 <= i < s.len() && #[trigger] s[i].0 == k;
            assert(t[i].0 == k);
        }
    }
}

/// Putting keeps keys unique, is read back, and leaves the other keys alone.
pub proof fn put_reads_back<A, B>(s: Seq<(A, B)>, k: A, v: B, q: A)
    requires
        unique_keys(s),
    ensures
        unique_keys(put(s, k, v)),
        lookup(put(s, k, v), k) == Some(v),
        q != k ==> lookup(put(s, k, v), q) == lookup(s, q),
{
    let t = put(s, k, v);
    if has_key(s, k) {
        let p = choose|i: int| 0 <= i < s.len() && #[trigger] s[i].0 == k;
        assert forall|i: int, j: int| 0 <= i < j < t.len() implies #[trigger] t[i].0
            != #[trigger] t[j].0 by {
            assert(s[i].0 != s[j].0);
        }
        lookup_finds(t, p);
        lookup_is_some(s, q);
        lookup_is_some(t, q);
        if has_key(s, q) {
            let i = choose|i: int| 0 <= i < s.len() && #[trigger] s[i].0 == q;
            lookup_finds(s, i);
            assert(t[i].0 == q);
            lookup_finds(t, i);
        } else if has_key(t, q) {
            let i = choose|i: int| 0 <= i < t.len() && #[trigger] t[i].0 == q;
            assert(s[i].0 == q);
        }
    } else {
        assert(t.drop_last() =~= s);
        assert forall|i: int, j: int| 0 <= i < j < t.len() implies #[trigger] t[i].0
            != #[trigger] t[j].0 by {
            assert(t[i] == s[i]);
            if j < s.len() {
                assert(s[j] == t[j]);
            }
        }
    }
}

/// The pairs of `s` whose flag is set, in order.
pub open spec fn kept<A, B>(s: Seq<(A, B)>, flags: Seq<bool>) -> Seq<(A, B)>
    decreases s.len(),
{
    if s.len() == 0 {
        Seq::empty()
    } else if flags[s.len() - 1] {
        kept(s.drop_last(), flags).push(s.last())
    } else {
        kept(s.drop_last(), flags)
    }
}

/// Whether `x` is a pair of `s` whose flag is set.
pub open spec fn flagged<A, B>(s: Seq<(A, B)>, flags: Seq<bool>, x: (A, B)) -> bool {
    exists|j: int| 0 <= j < s.len() && flags[j] && #[trigger] s[j] == x
}

/// What is kept was there before, with its flag set, and what was there with its flag set is
/// kept; keys stay unique.
pub proof fn kept_is_part<A, B>(s: Seq<(A, B)>, flags: Seq<bool>)
    requires
        unique_keys(s),
    ensures
        unique_keys(kept(s, flags)),
        forall|i: int|
            0 <= i < kept(s, flags).len() ==> flagged(s, flags, #[trigger] kept(s, flags)[i]),
        forall|j: int| 0 <= j < s.len() && flags[j] ==> kept(s, flags).contains(#[trigger] s[j]),
    decreases s.len(),
{
    if s.len() > 0 {
        let shorter = s.drop_last();
        assert(unique_keys(shorter)) by {
            assert forall|i: int, j: int| 0 <= i < j < shorter.len() implies #[trigger] shorter[i].0
                != #[trigger] shorter[j].0 by {
                assert(s[i].0 != s[j].0);
            }
        }
        kept_is_part(shorter, flags);
        let out = kept(s, flags);
        let inner = kept(shorter, flags);
        assert forall|i: int| 0 <= i < out.len() implies flagged(s, flags, #[trigger] out[i]) by {
            if i < inner.len() {
                assert(flagged(shorter, flags, inner[i]));
                let j = choose|j: int|
                    0 <= j < shorter.len() && flags[j] && #[trigger] shorter[j] == inner[i];
                assert(s[j] == out[i]);
            } else {
                assert(s[s.len() - 1] == out[i]);
            }
        }
        assert forall|j: int| 0 <= j < s.len() && flags[j] implies out.contains(#[trigger] s[j]) by {
            if j < shorter.len() {
                assert(inner.contains(shorter[j]));
                let i = choose|i: int| 0 <= i < inner.len() && inner[i] == shorter[j];
                assert(out[i] == s[j]);
            } else {
                assert(out[inner.len() as int] == s[j]);
            }
        }
        assert forall|i: int, j: int| 0 <= i < j < out.len() implies #[trigger] out[i].0
            != #[trigger] out[j].0 by {
            assert(out[i] == inner[i]);
            if j < inner.len() {
                assert(out[j] == inner[j]);
            } else {
                assert(flagged(shorter, flags, inner[i]));
                let k = choose|k: int|
                    0 <= k < shorter.len() && flags[k] && #[trigger] shorter[k] == inner[i];
                assert(s[k].0 != s[s.len() - 1].0);
            }
        }
    }
}

/// A map that remembers in which order its keys came.
pub struct OrderMap<K: MapKey, V: View> {
    entries: Vec<(K, V)>,
}

impl<K: MapKey, V: View> View for OrderMap<K, V> {
    type V = Seq<(K::V, V::V)>;

    closed spec fn view(&self) -> Seq<(K::V, V::V)> {
        Seq::new(self.entries@.len(), |i: int| (self.entries@[i].0@, self.entries@[i].1@))
    }
}

impl<K: MapKey, V: View> OrderMap<K, V> {
    /// No key occurs twice.
    #[verifier::type_invariant]
    pub open spec fn well_formed(&self) -> bool {
        unique_keys(self@)
    }

    /// An empty map.
    pub fn new() -> (map: Self)
        ensures
            map@ == Seq::<(K::V, V::V)>::empty(),
    {
        let map = OrderMap { entries: Vec::new() };
        assert(map@ =~= Seq::<(K::V, V::V)>::empty());
        map
    }

    /// The number of keys.
    pub fn len(&self) -> (n: usize)
        ensures
            n == self@.len(),
    {
        self.entries.len()
    }

    /// Whether there is no key.
    pub fn is_empty(&self) -> (empty: bool)
        ensures
            empty == (self@.len() == 0),
    {
        self.entries.len() == 0
    }

    /// The key at a position.
    pub fn key_at(&self, i: usize) -> (key: &K)
        requires
            i < self@.len(),
        ensures
            key@ == self@[i as int].0,
    {
        &self.entries[i].0
    }

    /// The value at a position.
    pub fn value_at(&self, i: usize) -> (value: &V)
        requires
            i < self@.len(),
        ensures
            value@ == self@[i as int].1,
    {
        &self.entries[i].1
    }

    /// The position of a key.
    pub fn position(&self, key: &K) -> (found: Option<usize>)
        ensures
            match found {
                Some(i) => i < self@.len() && self@[i as int].0 == key@,
                None => !has_key(self@, key@),
            },
    {
        let mut i: usize = 0;
        while i < self.entries.len()
            invariant
                i <= self@.len(),
                self@.len() == self.entries@.len(),
                forall|k: int| 0 <= k < i ==> #[trigger] self@[k].0 != key@,
            decreases self.entries.len() - i,
        {
            if self.entries[i].0.same_key(key) {
                return Some(i);
            }
            i += 1;
        }
        None
    }

    /// Whether a key is known.
    pub fn contains_key(&self, key: &K) -> (known: bool)
        ensures
            known == has_key(self@, key@),
            known == (lookup(self@, key@) is Some),
    {
        proof {
            lookup_is_some(self@, key@);
        }
        self.position(key).is_some()
    }

    /// The value of a key.
    pub fn get(&self, key: &K) -> (value: Option<&V>)
        ensures
            match value {
                Some(v) => lookup(self@, key@) == Some(v@),
                None => lookup(self@, key@) is None,
            },
    {
        proof {
            use_type_invariant(self);
            lookup_is_some(self@, key@);
        }
        match self.position(key) {
            Some(i) => {
                proof {
                    lookup_finds(self@, i as int);
                }
                Some(&self.entries[i].1)
            },
            None => None,
        }
    }

    /// Gives a key a value.
    pub fn insert(&mut self, key: K, value: V)
        ensures
            final(self)@ == put(old(self)@, key@, value@),
    {
        let ghost before = self@;
        let ghost k = key@;
        let ghost v = value@;
        proof {
            use_type_invariant(&*self);
            put_reads_back(before, k, v, k);
        }
        let found = self.position(&key);
        let mut entries: Vec<(K, V)> = Vec::new();
        std::mem::swap(&mut entries, &mut self.entries);
        match found {
            Some(i) => {
                entries.set(i, (key, value));
            },
            None => {
                entries.push((key, value));
            },
        }
        let ghost after = Seq::new(entries@.len(), |i: int| (entries@[i].0@, entries@[i].1@));
        assert(after =~= put(before, k, v));
        self.entries = entries;
        assert(self@ =~= after);
    }

    /// Replaces the value at a position and hands the old one back.
    pub fn replace_at(&mut self, i: usize, value: V) -> (old_value: V)
        requires
            i < old(self)@.len(),
        ensures
            old_value@ == old(self)@[i as int].1,
            final(self)@ == old(self)@.update(i as int, (old(self)@[i as int].0, value@)),
    {
        let ghost before = self@;
        let ghost v = value@;
        proof {
            use_type_invariant(&*self);
        }
        let mut entries: Vec<(K, V)> = Vec::new();
        std::mem::swap(&mut entries, &mut self.entries);
        let key = entries[i].0.copy_key();
        entries.push((key, value));
        let old_entry = entries.swap_remove(i);
        let ghost after = Seq::new(entries@.len(), |i: int| (entries@[i].0@, entries@[i].1@));
        assert(after =~= before.update(i as int, (before[i as int].0, v)));
        assert(unique_keys(after)) by {
            assert forall|a: int, b: int| 0 <= a < b < after.len() implies #[trigger] after[a].0
                != #[trigger] after[b].0 by {
                assert(before[a].0 != before[b].0);
            }
        }
        self.entries = entries;
        assert(self@ =~= after);
        old_entry.1
    }
}

impl<K: MapKey, V: View> OrderMap<K, V> {
    /// The values, in order.
    pub fn into_values(self) -> (values: Vec<V>)
        ensures
            views(values@) == Seq::new(self@.len(), |i: int| self@[i].1),
    {
        broadcast use views_push;

        let ghost all = self@;
        let ghost pairs = self.entries@;
        let mut values: Vec<V> = Vec::new();
        for entry in it: self.entries.into_iter()
            invariant
                it.seq() == pairs,
                all.len() == pairs.len(),
                forall|k: int| 0 <= k < all.len() ==> (#[trigger] all[k]).1 == pairs[k].1@,
                views(values@) =~= Seq::new(it.index() as nat, |i: int| all[i].1),
        {
            broadcast use views_push;

            assert(all[it.index()].1 == entry.1@);
            values.push(entry.1);
        }
        values
    }
}

impl<K: MapKey, V: View> OrderMap<K, V> {
    /// Drops the pairs whose flag is not set.
    pub fn keep(&mut self, flags: &Vec<bool>)
        requires
            flags@.len() == old(self)@.len(),
        ensures
            final(self)@ == kept(old(self)@, flags@),
    {
        let ghost all = self@;
        proof {
            use_type_invariant(&*self);
            kept_is_part(all, flags@);
        }
        let mut rest: Vec<(K, V)> = Vec::new();
        std::mem::swap(&mut rest, &mut self.entries);
        let ghost pairs = rest@;
        let mut entries: Vec<(K, V)> = Vec::new();
        let mut n: usize = 0;
        assert(all.take(0) =~= Seq::<(K::V, V::V)>::empty());
        for entry in it: rest.into_iter()
            invariant
                it.seq() == pairs,
                n == it.index(),
                flags@.len() == all.len(),
                all.len() == pairs.len(),
                forall|k: int|
                    0 <= k < all.len() ==> (#[trigger] all[k]) == (pairs[k].0@, pairs[k].1@),
                Seq::new(entries@.len(), |i: int| (entries@[i].0@, entries@[i].1@)) =~= kept(
                    all.take(n as int),
                    flags@,
                ),
        {
            assert(n < flags.len());
            assert(all[n as int] == (entry.0@, entry.1@));
            assert(all.take(n + 1).drop_last() =~= all.take(n as int));
            if flags[n] {
                entries.push(entry);
            }
            n += 1;
        }
        assert(all.take(n as int) =~= all);
        self.entries = entries;
        assert(self@ =~= kept(all, flags@));
    }

    /// Moves all pairs of another map into this one.
    pub fn absorb(&mut self, more: Self)
        ensures
            final(self)@ == put_all(old(self)@, more@),
    {
        let ghost base = self@;
        let ghost all = more@;
        let ghost pairs = more.entries@;
        assert(all.take(0) =~= Seq::<(K::V, V::V)>::empty());
        for entry in it: more.entries.into_iter()
            invariant
                it.seq() == pairs,
                all.len() == pairs.len(),
                forall|k: int|
                    0 <= k < all.len() ==> (#[trigger] all[k]) == (pairs[k].0@, pairs[k].1@),
                self@ == put_all(base, all.take(it.index())),
        {
            let ghost n = it.index();
            assert(all[n] == (entry.0@, entry.1@));
            assert(all.take(n + 1).drop_last() =~= all.take(n));
            self.insert(entry.0, entry.1);
        }
        assert(all.take(all.len() as int) =~= all);
    }
}

impl OrderMap<String, String> {
    /// A second map with the same contents.
    pub fn duplicate(&self) -> (copy: Self)
        ensures
            copy@ == self@,
    {
        proof {
            use_type_invariant(self);
        }
        let mut entries: Vec<(String, String)> = Vec::new();
        let mut i: usize = 0;
        while i < self.entries.len()
            invariant
                i <= self.entries.len(),
                entries.len() == i,
                forall|k: int|
                    0 <= k < i ==> (#[trigger] entries@[k].0)@ == self@[k].0 && entries@[k].1@
                        == self@[k].1,
            decreases self.entries.len() - i,
        {
            let name = self.entries[i].0.clone();
            let value = self.entries[i].1.clone();
            assert(name@ == self@[i as int].0 && value@ == self@[i as int].1);
            entries.push((name, value));
            i += 1;
        }
        let ghost pairs = Seq::new(entries@.len(), |k: int| (entries@[k].0@, entries@[k].1@));
        assert(pairs =~= self@);
        let copy = OrderMap { entries };
        assert(copy@ =~= self@);
        copy
    }

    /// Puts all pairs of another map into this one.
    pub fn insert_all(&mut self, more: &Self)
        ensures
            final(self)@ == put_all(old(self)@, more@),
    {
        let ghost base = self@;
        let mut i: usize = 0;
        assert(more@.take(0) =~= Seq::<(Seq<char>, Seq<char>)>::empty());
        while i < more.len()
            invariant
                i <= more@.len(),
                self@ == put_all(base, more@.take(i as int)),
            decreases more@.len() - i,
        {
            assert(more@.take(i + 1).drop_last() =~= more@.take(i as int));
            self.insert(more.key_at(i).clone(), more.value_at(i).clone());
            i += 1;
        }
        assert(more@.take(i as int) =~= more@);
    }
}

/// `names` after `name` was added: at the end where it is new, else unchanged.
pub open spec fn with_name(names: Seq<Seq<char>>, name: Seq<char>) -> Seq<Seq<char>> {
    if names.contains(name) {
        names
    } else {
        names.push(name)
    }
}

/// `names` after all of `more` were added, from first to last.
pub open spec fn with_names(names: Seq<Seq<char>>, more: Seq<Seq<char>>) -> Seq<Seq<char>>
    decreases more.len(),
{
    if more.len() == 0 {
        names
    } else {
        with_name(with_names(names, more.drop_last()), more.last())
    }
}

/// A set of names that remembers in which order they came.
pub struct NameSet {
    names: Vec<String>,
}

impl View for NameSet {
    type V = Seq<Seq<char>>;

    closed spec fn view(&self) -> Seq<Seq<char>> {
        views(self.names@)
    }
}

impl NameSet {
    /// No name occurs twice.
    #[verifier::type_invariant]
    pub open spec fn well_formed(&self) -> bool {
        self@.no_duplicates()
    }

    /// An empty set.
    pub fn new() -> (set: Self)
        ensures
            set@ == Seq::<Seq<char>>::empty(),
    {
        let set = NameSet { names: Vec::new() };
        assert(set@ =~= Seq::<Seq<char>>::empty());
        set
    }

    /// The number of names.
    pub fn len(&self) -> (n: usize)
        ensures
            n == self@.len(),
    {
        self.names.len()
    }

    /// Whether there is no name.
    pub fn is_empty(&self) -> (empty: bool)
        ensures
            empty == (self@.len() == 0),
    {
        self.names.len() == 0
    }

    /// The name at a position.
    pub fn name_at(&self, i: usize) -> (name: &str)
        requires
            i < self@.len(),
        ensures
            name@ == self@[i as int],
    {
        self.names[i].as_str()
    }

    /// The names, in order.
    pub fn to_vec(&self) -> (list: Vec<String>)
        ensures
            views(list@) == self@,
    {
        let mut list: Vec<String> = Vec::new();
        let mut i: usize = 0;
        while i < self.names.len()
            invariant
                i <= self.names.len(),
                views(list@) =~= self@.take(i as int),
            decreases self.names.len() - i,
        {
            broadcast use views_push;

            list.push(self.names[i].clone());
            i += 1;
        }
        assert(self@.take(i as int) =~= self@);
        list
    }

    /// Whether a name is in the set.
    pub fn contains(&self, name: &str) -> (known: bool)
        ensures
            known == self@.contains(name@),
    {
        let mut i: usize = 0;
        while i < self.names.len()
            invariant
                i <= self@.len(),
                self@.len() == self.names@.len(),
                forall|k: int| 0 <= k < i ==> #[trigger] self@[k] != name@,
            decreases self.names.len() - i,
        {
            if same_text(self.names[i].as_str(), name) {
                assert(self@[i as int] == name@);
                return true;
            }
            i += 1;
        }
        false
    }

    /// Adds a name.
    pub fn insert(&mut self, name: &str)
        ensures
            final(self)@ == with_name(old(self)@, name@),
    {
        broadcast use views_push;

        let ghost before = self@;
        proof {
            use_type_invariant(&*self);
        }
        if !self.contains(name) {
            let mut names: Vec<String> = Vec::new();
            std::mem::swap(&mut names, &mut self.names);
            names.push(name.to_owned());
            assert(views(names@) == before.push(name@));
            assert(before.push(name@).no_duplicates());
            self.names = names;
        }
    }

    /// Adds all names of another set.
    pub fn insert_all(&mut self, more: &Self)
        ensures
            final(self)@ == with_names(old(self)@, more@),
    {
        let ghost base = self@;
        let mut i: usize = 0;
        assert(more@.take(0) =~= Seq::<Seq<char>>::empty());
        while i < more.len()
            invariant
                i <= more@.len(),
                self@ == with_names(base, more@.take(i as int)),
            decreases more@.len() - i,
        {
            assert(more@.take(i + 1).drop_last() =~= more@.take(i as int));
            self.insert(more.name_at(i));
            i += 1;
        }
        assert(more@.take(i as int) =~= more@);
    }
}

} // verus!
