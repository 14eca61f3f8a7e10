//! Collections that report, or ignore, a second insert of an equal value or key.

use std::collections::{BTreeMap, BTreeSet, HashMap, HashSet};
use std::hash::Hash;
use vstd::laws_cmp::obeys_cmp;
use vstd::prelude::*;
use vstd::std_specs::hash::{builds_valid_hashers, obeys_key_model};

verus! {

broadcast use {vstd::std_specs::hash::group_hash_axioms, vstd::std_specs::btree::group_btree_axioms};

/// A set that tells whether an insert added a new value.
pub trait PreventDuplicateInsertsSet<T>: Sized {
    /// The values that the set holds.
    spec fn set_view(&self) -> Set<T>;

    /// Whether the set type works by the laws of its element type (hashing
    /// or ordering) for `T`, so that it behaves as a set of values.
    spec fn follows_model() -> bool;

    /// An empty set, with room for `size_hint` values where that helps.
    fn new(size_hint: Option<usize>) -> (s: Self)
        ensures
            s.set_view() == Set::<T>::empty(),
    ;

    /// Insert `value`; return true if the value did not exist in the set.
    fn insert(&mut self, value: T) -> (inserted: bool)
        ensures
            Self::follows_model() ==> final(self).set_view() == old(self).set_view().insert(value),
            Self::follows_model() ==> inserted == !old(self).set_view().contains(value),
    ;
}

/// A map that tells whether an insert added a new key.
pub trait PreventDuplicateInsertsMap<K, V>: Sized {
    /// The entries that the map holds.
    spec fn map_view(&self) -> Map<K, V>;

    /// Whether the map type works by the laws of its key type for `K`.
    spec fn follows_model() -> bool;

    /// An empty map, with room for `size_hint` entries where that helps.
    fn new(size_hint: Option<usize>) -> (s: Self)
        ensures
            s.map_view() == Map::<K, V>::empty(),
    ;

    /// Insert the entry; return true if the key did not exist in the map.
    fn insert(&mut self, key: K, value: V) -> (inserted: bool)
        ensures
            Self::follows_model() ==> final(self).map_view() == old(self).map_view().insert(
                key,
                value,
            ),
            Self::follows_model() ==> inserted == !old(self).map_view().contains_key(key),
    ;
}

/// A set that keeps the value it holds when an equal one is inserted again.
pub trait DuplicateInsertsFirstWinsSet<T>: Sized {
    /// The values that the set holds.
    spec fn set_view(&self) -> Set<T>;

    /// Whether the set type works by the laws of its element type for `T`.
    spec fn follows_model() -> bool;

    /// An empty set, with room for `size_hint` values where that helps.
    fn new(size_hint: Option<usize>) -> (s: Self)
        ensures
            s.set_view() == Set::<T>::empty(),
    ;

    /// Insert `value` unless an equal value is already there.
    fn insert(&mut self, value: T)
        ensures
            Self::follows_model() ==> final(self).set_view() == old(self).set_view().insert(value),
    ;
}

/// A map that keeps the first value of a key when the key is inserted again.
pub trait DuplicateInsertsFirstWinsMap<K, V>: Sized {
    /// The entries that the map holds.
    spec fn map_view(&self) -> Map<K, V>;

    /// Whether the map type works by the laws of its key type for `K`.
    spec fn follows_model() -> bool;

    /// An empty map, with room for `size_hint` entries where that helps.
    fn new(size_hint: Option<usize>) -> (s: Self)
        ensures
            s.map_view() == Map::<K, V>::empty(),
    ;

    /// Insert the entry unless the key is already there.
    fn insert(&mut self, key: K, value: V)
        ensures
            Self::follows_model() ==> final(self).map_view() == (if old(
                self,
            ).map_view().contains_key(key) {
                old(self).map_view()
            } else {
                old(self).map_view().insert(key, value)
            }),
    ;
}

impl<T: Eq + Hash> PreventDuplicateInsertsSet<T> for HashSet<T> {
    open spec fn set_view(&self) -> Set<T> {
        self@
    }

    open spec fn follows_model() -> bool {
        obeys_key_model::<T>() && builds_valid_hashers::<std::collections::hash_map::RandomState>()
    }

    fn new(size_hint: Option<usize>) -> (s: Self) {
        match size_hint {
            Some(size) => HashSet::with_capacity(size),
            None => HashSet::new(),
        }
    }

    fn insert(&mut self, value: T) -> (inserted: bool) {
        HashSet::insert(self, value)
    }
}

impl<T: Ord> PreventDuplicateInsertsSet<T> for BTreeSet<T> {
    open spec fn set_view(&self) -> Set<T> {
        self@
    }

    open spec fn follows_model() -> bool {
        obeys_cmp::<T>()
    }

    fn new(_size_hint: Option<usize>) -> (s: Self) {
        BTreeSet::new()
    }

    fn insert(&mut self, value: T) -> (inserted: bool) {
        BTreeSet::insert(self, value)
    }
}

impl<K: Eq + Hash, V> PreventDuplicateInsertsMap<K, V> for HashMap<K, V> {
    open spec fn map_view(&self) -> Map<K, V> {
        self@
    }

    open spec fn follows_model() -> bool {
        obeys_key_model::<K>() && builds_valid_hashers::<std::collections::hash_map::RandomState>()
    }

    fn new(size_hint: Option<usize>) -> (s: Self) {
        match size_hint {
            Some(size) => HashMap::with_capacity(size),
            None => HashMap::new(),
        }
    }

    fn insert(&mut self, key: K, value: V) -> (inserted: bool) {
        HashMap::insert(self, key, value).is_none()
    }
}

impl<K: Ord, V> PreventDuplicateInsertsMap<K, V> for BTreeMap<K, V> {
    open spec fn map_view(&self) -> Map<K, V> {
        self@
    }

    open spec fn follows_model() -> bool {
        obeys_cmp::<K>()
    }

    fn new(_size_hint: Option<usize>) -> (s: Self) {
        BTreeMap::new()
    }

    fn insert(&mut self, key: K, value: V) -> (inserted: bool) {
        BTreeMap::insert(self, key, value).is_none()
    }
}

impl<T: Eq + Hash> DuplicateInsertsFirstWinsSet<T> for HashSet<T> {
    open spec fn set_view(&self) -> Set<T> {
        self@
    }

    open spec fn follows_model() -> bool {
        obeys_key_model::<T>() && builds_valid_hashers::<std::collections::hash_map::RandomState>()
    }

    fn new(size_hint: Option<usize>) -> (s: Self) {
        match size_hint {
            Some(size) => HashSet::with_capacity(size),
            None => HashSet::new(),
        }
    }

    fn insert(&mut self, value: T) {
        HashSet::insert(self, value);
    }
}

impl<T: Ord> DuplicateInsertsFirstWinsSet<T> for BTreeSet<T> {
    open spec fn set_view(&self) -> Set<T> {
        self@
    }

    open spec fn follows_model() -> bool {
        obeys_cmp::<T>()
    }

    fn new(_size_hint: Option<usize>) -> (s: Self) {
        BTreeSet::new()
    }

    fn insert(&mut self, value: T) {
        BTreeSet::insert(self, value);
    }
}

impl<K: Eq + Hash, V> DuplicateInsertsFirstWinsMap<K, V> for HashMap<K, V> {
    open spec fn map_view(&self) -> Map<K, V> {
        self@
    }

    open spec fn follows_model() -> bool {
        obeys_key_model::<K>() && builds_valid_hashers::<std::collections::hash_map::RandomState>()
    }

    fn new(size_hint: Option<usize>) -> (s: Self) {
        match size_hint {
            Some(size) => HashMap::with_capacity(size),
            None => HashMap::new(),
        }
    }

    fn insert(&mut self, key: K, value: V) {
        if !self.contains_key(&key) {
            HashMap::insert(self, key, value);
        }
    }
}

impl<K: Ord, V> DuplicateInsertsFirstWinsMap<K, V> for BTreeMap<K, V> {
    open spec fn map_view(&self) -> Map<K, V> {
        self@
    }

    open spec fn follows_model() -> bool {
        obeys_cmp::<K>()
    }

    fn new(_size_hint: Option<usize>) -> (s: Self) {
        BTreeMap::new()
    }

    fn insert(&mut self, key: K, value: V) {
        if !self.contains_key(&key) {
            BTreeMap::insert(self, key, value);
        }
    }
}

/// A value (or key) equal to an earlier one, at position `index` of the input.
#[derive(Debug, Clone, Copy, PartialEq, Eq)]
pub struct DuplicateEntry {
    pub index: usize,
}

/// The position, at or after `i`, of the first element equal to an earlier
/// element, or the length of `s` when there is none.
pub open spec fn first_repeat_from<T>(s: Seq<T>, i: int) -> int
    decreases s.len() - i,
{
    if i < 0 || i >= s.len() {
        s.len() as int
    } else if s.take(i).contains(s[i]) {
        i
    } else {
        first_repeat_from(s, i + 1)
    }
}

/// The position of the first element equal to an earlier element, or the
/// length of `s` when all elements differ.
pub open spec fn first_repeat<T>(s: Seq<T>) -> int {
    first_repeat_from(s, 0)
}

/// The keys of a sequence of entries.
pub open spec fn keys_of<K, V>(s: Seq<(K, V)>) -> Seq<K> {
    s.map_values(|p: (K, V)| p.0)
}

/// The map holding the entries of `s`, a later entry replacing an earlier one
/// of the same key.
pub open spec fn entries_map<K, V>(s: Seq<(K, V)>) -> Map<K, V>
    decreases s.len(),
{
    if s.len() == 0 {
        Map::empty()
    } else {
        entries_map(s.drop_last()).insert(s.last().0, s.last().1)
    }
}

/// The map holding the entries of `s`, the first entry of each key kept.
pub open spec fn entries_map_first_wins<K, V>(s: Seq<(K, V)>) -> Map<K, V>
    decreases s.len(),
{
    if s.len() == 0 {
        Map::empty()
    } else {
        let m = entries_map_first_wins(s.drop_last());
        if m.contains_key(s.last().0) {
            m
        } else {
            m.insert(s.last().0, s.last().1)
        }
    }
}

/// With no repeat before `k` and a repeat at `k`, `k` is the first repeat;
/// with no repeat at all, the first repeat is the length.
proof fn lemma_first_repeat_at<T>(s: Seq<T>, from: int, k: int)
    requires
        0 <= from <= k <= s.len(),
        forall|j: int| from <= j < k ==> !s.take(j).contains(#[trigger] s[j]),
        k < s.len() ==> s.take(k).contains(s[k]),
    ensures
        first_repeat_from(s, from) == k,
    decreases k - from,
{
    if from < k {
        lemma_first_repeat_at(s, from + 1, k);
    }
}

proof fn lemma_first_repeat_from_none<T>(s: Seq<T>, from: int)
    requires
        0 <= from <= s.len(),
    ensures
        (first_repeat_from(s, from) == s.len()) <==> (forall|j: int|
            from <= j < s.len() ==> !s.take(j).contains(#[trigger] s[j])),
    decreases s.len() - from,
{
    if from < s.len() {
        lemma_first_repeat_from_none(s, from + 1);
        if s.take(from).contains(s[from]) {
            assert(!(forall|j: int| from <= j < s.len() ==> !s.take(j).contains(#[trigger] s[j])));
        }
    }
}

/// The first repeat is past the end exactly when all elements differ.
pub proof fn lemma_first_repeat_no_duplicates<T>(s: Seq<T>)
    ensures
        (first_repeat(s) == s.len()) <==> s.no_duplicates(),
{
    lemma_first_repeat_from_none(s, 0);
    if first_repeat(s) == s.len() {
        assert forall|i: int, j: int| 0 <= i < s.len() && 0 <= j < s.len() && i != j implies s[i]
            != s[j] by {
            if i < j {
                assert(s.take(j)[i] == s[i]);
                assert(!s.take(j).contains(s[j]));
            } else {
                assert(s.take(i)[j] == s[j]);
                assert(!s.take(i).contains(s[i]));
            }
        }
    }
    if s.no_duplicates() {
        assert forall|j: int| 0 <= j < s.len() implies !s.take(j).contains(#[trigger] s[j]) by {
            if s.take(j).contains(s[j]) {
                let k = choose|k: int| 0 <= k < s.take(j).len() && s.take(j)[k] == s[j];
                assert(s[k] == s[j]);
            }
        }
    }
}

/// An entry whose key no earlier entry has is the one that the first-wins map keeps.
pub proof fn lemma_first_wins_keeps_first<K, V>(s: Seq<(K, V)>, i: int)
    requires
        0 <= i < s.len(),
        !keys_of(s).take(i).contains(s[i].0),
    ensures
        entries_map_first_wins(s).contains_key(s[i].0),
        entries_map_first_wins(s)[s[i].0] == s[i].1,
    decreases s.len(),
{
    let p = s.drop_last();
    let k = s[i].0;
    if i == s.len() - 1 {
        assert(keys_of(p) =~= keys_of(s).take(i));
        lemma_entries_map_keys(p, k);
    } else {
        assert(keys_of(p).take(i) =~= keys_of(s).take(i));
        assert(p[i] == s[i]);
        lemma_first_wins_keeps_first(p, i);
    }
}

/// An entry whose key no later entry has is the one that the last-wins map keeps.
pub proof fn lemma_last_wins_keeps_last<K, V>(s: Seq<(K, V)>, i: int)
    requires
        0 <= i < s.len(),
        forall|j: int| i < j < s.len() ==> (#[trigger] s[j]).0 != s[i].0,
    ensures
        entries_map(s).contains_key(s[i].0),
        entries_map(s)[s[i].0] == s[i].1,
    decreases s.len(),
{
    if i < s.len() - 1 {
        let p = s.drop_last();
        assert(p[i] == s[i]);
        assert(s[s.len() - 1].0 != s[i].0);
        lemma_last_wins_keeps_last(p, i);
    }
}

/// Without a repeated key, keeping the first or the last entry of a key gives
/// the same map.
pub proof fn lemma_first_wins_agrees_without_repeats<K, V>(s: Seq<(K, V)>)
    requires
        keys_of(s).no_duplicates(),
    ensures
        entries_map(s) == entries_map_first_wins(s),
    decreases s.len(),
{
    if s.len() > 0 {
        let p = s.drop_last();
        assert(keys_of(p) =~= keys_of(s).drop_last());
        assert forall|a: int, b: int|
            0 <= a < keys_of(p).len() && 0 <= b < keys_of(p).len() && a != b implies keys_of(p)[a]
            != keys_of(p)[b] by {
            assert(keys_of(p)[a] == keys_of(s)[a]);
            assert(keys_of(p)[b] == keys_of(s)[b]);
        }
        lemma_first_wins_agrees_without_repeats(p);
        lemma_entries_map_keys(p, s.last().0);
        if keys_of(p).contains(s.last().0) {
            let j = choose|j: int| 0 <= j < keys_of(p).len() && keys_of(p)[j] == s.last().0;
            assert(keys_of(s)[j] == keys_of(s)[s.len() - 1]);
        }
    }
}

/// A sequence without repeats has no element equal to an earlier one.
proof fn lemma_no_duplicates_no_repeat<T>(t: Seq<T>)
    requires
        t.no_duplicates(),
    ensures
        forall|j: int| 0 <= j < t.len() ==> !t.take(j).contains(#[trigger] t[j]),
{
    assert forall|j: int| 0 <= j < t.len() implies !t.take(j).contains(#[trigger] t[j]) by {
        if t.take(j).contains(t[j]) {
            let k = choose|k: int| 0 <= k < t.take(j).len() && t.take(j)[k] == t[j];
            assert(t[k] == t[j]);
        }
    }
}

/// Pushing `v` after a sequence without repeats: the first repeat is at the
/// end when `v` is already there, and there is none otherwise.
proof fn lemma_push_repeat<T>(t: Seq<T>, v: T)
    requires
        t.no_duplicates(),
    ensures
        t.contains(v) ==> first_repeat(t.push(v)) == t.len(),
        !t.contains(v) ==> t.push(v).no_duplicates(),
{
    let p = t.push(v);
    lemma_no_duplicates_no_repeat(t);
    assert forall|j: int| 0 <= j < t.len() implies !p.take(j).contains(#[trigger] p[j]) by {
        assert(p.take(j) =~= t.take(j));
        assert(p[j] == t[j]);
    }
    if t.contains(v) {
        assert(p.take(t.len() as int) =~= t);
        lemma_first_repeat_at(p, 0, t.len() as int);
    } else {
        assert forall|a: int, b: int| 0 <= a < p.len() && 0 <= b < p.len() && a != b implies p[a]
            != p[b] by {
            if a == t.len() {
                assert(t[b] == p[b]);
            } else if b == t.len() {
                assert(t[a] == p[a]);
            }
        }
    }
}

/// A set being read from a sequence, value by value, in which a value equal
/// to an earlier one is an error; reading stops there.
pub struct UniqueSetReader<T, V> {
    set: T,
    count: usize,
    read: Ghost<Seq<V>>,
}

impl<T: PreventDuplicateInsertsSet<V>, V> View for UniqueSetReader<T, V> {
    type V = Seq<V>;

    /// The values read so far, in order.
    open spec fn view(&self) -> Seq<V> {
        self.spec_read()
    }
}

impl<T: PreventDuplicateInsertsSet<V>, V> UniqueSetReader<T, V> {
    /// The values read so far, in order.
    pub closed spec fn spec_read(&self) -> Seq<V> {
        self.read@
    }

    /// The reader counts the values read, and its set holds them, none twice.
    pub closed spec fn wf(&self) -> bool {
        &&& self.count == self.read@.len()
        &&& T::follows_model() ==> self.set.set_view() == self.read@.to_set()
            && self.read@.no_duplicates()
    }

    /// A reader with no values read, its set made with the size hint.
    pub fn new(size_hint: Option<usize>) -> (r: Self)
        ensures
            r.wf(),
            r@ == Seq::<V>::empty(),
    {
        let r = UniqueSetReader { set: T::new(size_hint), count: 0, read: Ghost(Seq::empty()) };
        assert(r.read@.to_set() =~= Set::<V>::empty());
        r
    }

    /// The number of values read.
    pub fn len(&self) -> (n: usize)
        requires
            self.wf(),
        ensures
            n == self@.len(),
    {
        self.count
    }

    /// Take the next value of the sequence: a value equal to none read before
    /// is added; one equal to an earlier value is the error, at its position.
    pub fn insert_next(&mut self, value: V) -> (r: Result<(), DuplicateEntry>)
        requires
            old(self).wf(),
            old(self)@.len() < usize::MAX,
        ensures
            r is Ok ==> final(self).wf() && final(self)@ == old(self)@.push(value),
            T::follows_model() ==> (r is Ok <==> !old(self)@.contains(value)),
            T::follows_model() ==> match r {
                Ok(_) => true,
                Err(e) => e.index == old(self)@.len() && first_repeat(old(self)@.push(value))
                    == old(self)@.len(),
            },
    {
        let ghost before = self.read@;
        let index = self.count;
        proof {
            if T::follows_model() {
                lemma_push_repeat(before, value);
                assert(before.to_set().contains(value) <==> before.contains(value));
            }
        }
        if self.set.insert(value) {
            self.count = index + 1;
            self.read = Ghost(before.push(value));
            proof {
                if T::follows_model() {
                    before.lemma_push_to_set_commute(value);
                }
            }
            Ok(())
        } else {
            Err(DuplicateEntry { index })
        }
    }

    /// The set of the values read.
    pub fn finish(self) -> (set: T)
        requires
            self.wf(),
        ensures
            T::follows_model() ==> set.set_view() == self@.to_set() && first_repeat(self@)
                == self@.len(),
    {
        proof {
            if T::follows_model() {
                lemma_first_repeat_no_duplicates(self.read@);
            }
        }
        self.set
    }
}

/// A set of the values, failing at the first value equal to an earlier one.
pub fn deserialize_set<T, V>(values: Vec<V>) -> (r: Result<T, DuplicateEntry>) where
    T: PreventDuplicateInsertsSet<V>,

    ensures
        T::follows_model() ==> match r {
            Ok(set) => first_repeat(values@) == values@.len() && set.set_view() == values@.to_set(),
            Err(e) => first_repeat(values@) < values@.len() && e.index == first_repeat(values@),
        },
{
    let ghost s = values@;
    let n = values.len();
    let mut reader = UniqueSetReader::<T, V>::new(Some(n));
    assert(s.take(0) =~= Seq::<V>::empty());
    for v in it: values.into_iter()
        invariant
            it.seq() == s,
            n == s.len(),
            reader.wf(),
            reader@ == s.take(it.index() as int),
    {
        let ghost i = it.index() as int;
        assert(v == s[i]);
        match reader.insert_next(v) {
            Ok(()) => {
                assert(s.take(i + 1) =~= s.take(i).push(s[i]));
            },
            Err(e) => {
                proof {
                    if T::follows_model() {
                        assert(s.take(i).push(s[i]) =~= s.take(i + 1));
                        lemma_first_repeat_prefix(s, i + 1);
                    }
                }
                return Err(e);
            },
        }
    }
    assert(s.take(n as int) =~= s);
    Ok(reader.finish())
}

/// The first repeat of a prefix, when it lies inside the prefix, is the first
/// repeat of the whole sequence.
proof fn lemma_first_repeat_prefix<T>(s: Seq<T>, k: int)
    requires
        0 <= k <= s.len(),
        first_repeat(s.take(k)) < k,
    ensures
        first_repeat(s) == first_repeat(s.take(k)),
{
    let t = s.take(k);
    let f = first_repeat(t);
    lemma_first_repeat_from_none(t, 0);
    lemma_first_repeat_facts(t, 0);
    assert forall|j: int| 0 <= j < f implies !s.take(j).contains(#[trigger] s[j]) by {
        assert(s.take(j) =~= t.take(j));
        assert(t[j] == s[j]);
    }
    assert(s.take(f) =~= t.take(f));
    assert(t[f] == s[f]);
    lemma_first_repeat_at(s, 0, f);
}

/// Before the first repeat there is none, and at it there is one.
proof fn lemma_first_repeat_facts<T>(s: Seq<T>, from: int)
    requires
        0 <= from <= s.len(),
    ensures
        from <= first_repeat_from(s, from) <= s.len(),
        forall|j: int| from <= j < first_repeat_from(s, from) ==> !s.take(j).contains(#[trigger] s[j]),
        first_repeat_from(s, from) < s.len() ==> s.take(first_repeat_from(s, from)).contains(
            s[first_repeat_from(s, from)],
        ),
    decreases s.len() - from,
{
    if from < s.len() && !s.take(from).contains(s[from]) {
        lemma_first_repeat_facts(s, from + 1);
    }
}

/// The keys of the entries map are the keys of the entries.
pub proof fn lemma_entries_map_keys<K, V>(s: Seq<(K, V)>, k: K)
    ensures
        entries_map(s).contains_key(k) <==> keys_of(s).contains(k),
        entries_map_first_wins(s).contains_key(k) <==> keys_of(s).contains(k),
    decreases s.len(),
{
    if s.len() == 0 {
        assert(keys_of(s) =~= Seq::<K>::empty());
    } else {
        lemma_entries_map_keys(s.drop_last(), k);
        assert(keys_of(s) =~= keys_of(s.drop_last()).push(s.last().0));
        assert(keys_of(s)[s.len() - 1] == s.last().0);
        if keys_of(s).contains(k) && k != s.last().0 {
            let j = choose|j: int| 0 <= j < keys_of(s).len() && keys_of(s)[j] == k;
            assert(keys_of(s.drop_last())[j] == k);
        }
        if keys_of(s.drop_last()).contains(k) {
            let j = choose|j: int| 0 <= j < keys_of(s.drop_last()).len() && keys_of(s.drop_last())[j] == k;
            assert(keys_of(s)[j] == k);
        }
    }
}

/// A map being read from a sequence of entries, entry by entry, in which a
/// key equal to an earlier one is an error; reading stops there.
pub struct UniqueMapReader<T, K, V> {
    map: T,
    count: usize,
    read: Ghost<Seq<(K, V)>>,
}

impl<T: PreventDuplicateInsertsMap<K, V>, K, V> View for UniqueMapReader<T, K, V> {
    type V = Seq<(K, V)>;

    /// The entries read so far, in order.
    open spec fn view(&self) -> Seq<(K, V)> {
        self.spec_read()
    }
}

impl<T: PreventDuplicateInsertsMap<K, V>, K, V> UniqueMapReader<T, K, V> {
    /// The entries read so far, in order.
    pub closed spec fn spec_read(&self) -> Seq<(K, V)> {
        self.read@
    }

    /// The reader counts the entries read, and its map holds them, no key twice.
    pub closed spec fn wf(&self) -> bool {
        &&& self.count == self.read@.len()
        &&& T::follows_model() ==> self.map.map_view() == entries_map(self.read@) && keys_of(
            self.read@,
        ).no_duplicates()
    }

    /// A reader with no entries read, its map made with the size hint.
    pub fn new(size_hint: Option<usize>) -> (r: Self)
        ensures
            r.wf(),
            r@ == Seq::<(K, V)>::empty(),
    {
        let r = UniqueMapReader { map: T::new(size_hint), count: 0, read: Ghost(Seq::empty()) };
        assert(keys_of(r.read@) =~= Seq::<K>::empty());
        r
    }

    /// The number of entries read.
    pub fn len(&self) -> (n: usize)
        requires
            self.wf(),
        ensures
            n == self@.len(),
    {
        self.count
    }

    /// Take the next entry of the sequence: a key equal to none read before
    /// is added with its value; one equal to an earlier key is the error, at
    /// its position.
    pub fn insert_next(&mut self, key: K, value: V) -> (r: Result<(), DuplicateEntry>)
        requires
            old(self).wf(),
            old(self)@.len() < usize::MAX,
        ensures
            r is Ok ==> final(self).wf() && final(self)@ == old(self)@.push((key, value)),
            T::follows_model() ==> (r is Ok <==> !keys_of(old(self)@).contains(key)),
            T::follows_model() ==> match r {
                Ok(_) => true,
                Err(e) => e.index == old(self)@.len() && first_repeat(
                    keys_of(old(self)@.push((key, value))),
                ) == old(self)@.len(),
            },
    {
        let ghost before = self.read@;
        let index = self.count;
        proof {
            assert(keys_of(before.push((key, value))) =~= keys_of(before).push(key));
            if T::follows_model() {
                lemma_push_repeat(keys_of(before), key);
                lemma_entries_map_keys(before, key);
            }
        }
        if self.map.insert(key, value) {
            self.count = index + 1;
            self.read = Ghost(before.push((key, value)));
            proof {
                assert(before.push((key, value)).drop_last() =~= before);
            }
            Ok(())
        } else {
            Err(DuplicateEntry { index })
        }
    }

    /// The map of the entries read.
    pub fn finish(self) -> (map: T)
        requires
            self.wf(),
        ensures
            T::follows_model() ==> map.map_view() == entries_map(self@) && first_repeat(
                keys_of(self@),
            ) == self@.len(),
    {
        proof {
            if T::follows_model() {
                lemma_first_repeat_no_duplicates(keys_of(self.read@));
            }
        }
        self.map
    }
}

/// A map of the entries, failing at the first key equal to an earlier one.
pub fn deserialize_map<T, K, V>(entries: Vec<(K, V)>) -> (r: Result<T, DuplicateEntry>) where
    T: PreventDuplicateInsertsMap<K, V>,

    ensures
        T::follows_model() ==> match r {
            Ok(map) => first_repeat(keys_of(entries@)) == entries@.len() && map.map_view()
                == entries_map(entries@),
            Err(e) => first_repeat(keys_of(entries@)) < entries@.len() && e.index == first_repeat(
                keys_of(entries@),
            ),
        },
{
    let ghost s = entries@;
    let n = entries.len();
    let mut reader = UniqueMapReader::<T, K, V>::new(Some(n));
    assert(s.take(0) =~= Seq::<(K, V)>::empty());
    for entry in it: entries.into_iter()
        invariant
            it.seq() == s,
            n == s.len(),
            reader.wf(),
            reader@ == s.take(it.index() as int),
    {
        let ghost i = it.index() as int;
        assert(entry == s[i]);
        let (key, value) = entry;
        match reader.insert_next(key, value) {
            Ok(()) => {
                assert(s.take(i + 1) =~= s.take(i).push(s[i]));
            },
            Err(e) => {
                proof {
                    if T::follows_model() {
                        assert(keys_of(s.take(i).push((key, value))) =~= keys_of(s).take(i + 1));
                        assert(keys_of(s).take(i + 1).len() == i + 1);
                        lemma_first_repeat_prefix(keys_of(s), i + 1);
                    }
                }
                return Err(e);
            },
        }
    }
    assert(s.take(n as int) =~= s);
    Ok(reader.finish())
}

/// A set of the values, the first of equal values kept.
pub fn deserialize_set_first_wins<T, V>(values: Vec<V>) -> (set: T) where
    T: DuplicateInsertsFirstWinsSet<V>,

    ensures
        T::follows_model() ==> set.set_view() == values@.to_set(),
{
    let ghost s = values@;
    let n = values.len();
    let mut set = T::new(Some(n));
    let mut i: usize = 0;
    assert(s.take(0).to_set() =~= Set::<V>::empty());
    for v in it: values.into_iter()
        invariant
            it.seq() == s,
            i == it.index(),
            n == s.len(),
            T::follows_model() ==> set.set_view() == s.take(i as int).to_set(),
    {
        assert(v == s[i as int]);
        set.insert(v);
        proof {
            if T::follows_model() {
                assert(s.take(i + 1) =~= s.take(i as int).push(s[i as int]));
                s.take(i as int).lemma_push_to_set_commute(s[i as int]);
            }
        }
        i = i + 1;
    }
    assert(s.take(n as int) =~= s);
    set
}

/// A map of the entries, the first entry of each key kept.
pub fn deserialize_map_first_wins<T, K, V>(entries: Vec<(K, V)>) -> (map: T) where
    T: DuplicateInsertsFirstWinsMap<K, V>,

    ensures
        T::follows_model() ==> map.map_view() == entries_map_first_wins(entries@),
{
    let ghost s = entries@;
    let n = entries.len();
    let mut map = T::new(Some(n));
    let mut i: usize = 0;
    assert(s.take(0) =~= Seq::<(K, V)>::empty());
    for entry in it: entries.into_iter()
        invariant
            it.seq() == s,
            i == it.index(),
            n == s.len(),
            T::follows_model() ==> map.map_view() == entries_map_first_wins(s.take(i as int)),
    {
        assert(entry == s[i as int]);
        let (key, value) = entry;
        map.insert(key, value);
        assert(s.take(i + 1).drop_last() =~= s.take(i as int));
        i = i + 1;
    }
    assert(s.take(n as int) =~= s);
    map
}

} // verus!
