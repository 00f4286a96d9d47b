//! An ordered table of records, each carrying its own string key.
//!
//! The records are kept strictly increasing by key (`chars_lt`), so a key
//! occurs at most once and walking the table visits the keys in ascending
//! order, as an ordered map does.

use crate::text::{chars_lt, compare_str, KeyOrder};
use crate::text::{lemma_chars_lt_asymmetric, lemma_chars_lt_irreflexive, lemma_chars_lt_total, lemma_chars_lt_transitive};
use vstd::prelude::*;

verus! {

/// A record that carries its own key.
pub trait Keyed {
    /// The key of the record.
    spec fn key(&self) -> Seq<char>;

    /// The key as a string slice.
    fn key_str(&self) -> (r: &str)
        ensures
            r@ == self.key(),
    ;
}

/// The records' keys strictly increase along the sequence.
pub open spec fn keys_sorted<T: Keyed>(s: Seq<T>) -> bool {
    forall|i: int, j: int| 0 <= i < j < s.len() ==> chars_lt(#[trigger] s[i].key(), #[trigger] s[j].key())
}

/// Some record of `s` has key `k`.
pub open spec fn has_key<T: Keyed>(s: Seq<T>, k: Seq<char>) -> bool {
    exists|i: int| 0 <= i < s.len() && #[trigger] s[i].key() == k
}

/// A position of `s` whose record has key `k`, when there is one.
pub open spec fn key_index<T: Keyed>(s: Seq<T>, k: Seq<char>) -> int {
    choose|i: int| 0 <= i < s.len() && #[trigger] s[i].key() == k
}

/// The map from key to record that a sequence of records denotes.
pub open spec fn table_map<T: Keyed>(s: Seq<T>) -> Map<Seq<char>, T> {
    Map::new(|k: Seq<char>| has_key(s, k), |k: Seq<char>| s[key_index(s, k)])
}

/// The map that inserting the records of `s` one after the other, into an
/// empty table, produces: a later record replaces an earlier one with the
/// same key.
pub open spec fn map_of_inserts<T: Keyed>(s: Seq<T>) -> Map<Seq<char>, T>
    decreases s.len(),
{
    if s.len() == 0 {
        Map::empty()
    } else {
        map_of_inserts(s.drop_last()).insert(s.last().key(), s.last())
    }
}

/// In a sorted sequence the last record adds its key to the map of the
/// others.
pub proof fn lemma_table_map_push<T: Keyed>(s: Seq<T>)
    requires
        keys_sorted(s),
        s.len() > 0,
    ensures
        table_map(s) == table_map(s.drop_last()).insert(s.last().key(), s.last()),
{
    let r = s.drop_last();
    let n = s.len() - 1;
    assert(s.last() == s[n]);
    assert(keys_sorted(r)) by {
        assert forall|i: int, j: int| 0 <= i < j < r.len() implies chars_lt(
            #[trigger] r[i].key(),
            #[trigger] r[j].key(),
        ) by {
            assert(r[i] == s[i]);
            assert(r[j] == s[j]);
        }
    }
    let kl = s[n].key();
    lemma_table_map_at(s, n);
    assert forall|k: Seq<char>| #[trigger] table_map(s).contains_key(k) == table_map(r).insert(
        kl,
        s[n],
    ).contains_key(k) by {
        if table_map(s).contains_key(k) && k != kl {
            let i = choose|i: int| 0 <= i < s.len() && #[trigger] s[i].key() == k;
            assert(r[i] == s[i]);
            assert(has_key(r, k));
        }
        if table_map(r).contains_key(k) {
            let i = choose|i: int| 0 <= i < r.len() && #[trigger] r[i].key() == k;
            assert(r[i] == s[i]);
            assert(has_key(s, k));
        }
    }
    assert forall|k: Seq<char>| #[trigger] table_map(s).contains_key(k) implies table_map(s)[k]
        == table_map(r).insert(kl, s[n])[k] by {
        if k != kl {
            let i = choose|i: int| 0 <= i < s.len() && #[trigger] s[i].key() == k;
            assert(i != n);
            assert(r[i] == s[i]);
            lemma_table_map_at(s, i);
            lemma_table_map_at(r, i);
        }
    }
    assert(table_map(s) =~= table_map(r).insert(kl, s[n]));
}

/// Inserting the records of a sorted sequence one by one gives the map the
/// sequence denotes.
pub proof fn lemma_inserts_sorted<T: Keyed>(s: Seq<T>)
    requires
        keys_sorted(s),
    ensures
        map_of_inserts(s) == table_map(s),
    decreases s.len(),
{
    if s.len() == 0 {
        assert(table_map(s) =~= Map::<Seq<char>, T>::empty());
    } else {
        let r = s.drop_last();
        assert(keys_sorted(r)) by {
            assert forall|i: int, j: int| 0 <= i < j < r.len() implies chars_lt(
                #[trigger] r[i].key(),
                #[trigger] r[j].key(),
            ) by {
                assert(r[i] == s[i]);
                assert(r[j] == s[j]);
            }
        }
        lemma_inserts_sorted(r);
        lemma_table_map_push(s);
    }
}

/// In a sorted sequence each record is what the map gives for its key.
pub proof fn lemma_table_map_at<T: Keyed>(s: Seq<T>, i: int)
    requires
        keys_sorted(s),
        0 <= i < s.len(),
    ensures
        table_map(s).contains_key(s[i].key()),
        table_map(s)[s[i].key()] == s[i],
{
    let k = s[i].key();
    assert(s[i].key() == k);
    assert(has_key(s, k));
    let j = key_index(s, k);
    if j < i {
        assert(chars_lt(s[j].key(), s[i].key()));
        lemma_chars_lt_irreflexive(k);
    } else if i < j {
        assert(chars_lt(s[i].key(), s[j].key()));
        lemma_chars_lt_irreflexive(k);
    }
    assert(j == i);
    assert(table_map(s).contains_key(k));
    assert(table_map(s)[k] == s[j]);
}

/// Walking a sorted table lists its map exactly as an ordered map does:
/// each entry is the record the map gives for its key, every key of the map
/// is at some position, no key is at two positions, and the keys ascend.
/// The listings of `InMemoryMetadata` (`workspaces`, `snapshots`,
/// `policies`) are such tables.
pub proof fn lemma_sorted_listing<T: Keyed>(s: Seq<T>)
    requires
        keys_sorted(s),
    ensures
        forall|i: int|
            0 <= i < s.len() ==> table_map(s).contains_key(#[trigger] s[i].key()) && table_map(s)[s[i].key()]
                == s[i],
        forall|k: Seq<char>|
            #[trigger] table_map(s).contains_key(k) ==> exists|i: int| 0 <= i < s.len() && #[trigger] s[i].key() == k,
        forall|i: int, j: int|
            0 <= i < s.len() && 0 <= j < s.len() && #[trigger] s[i].key() == #[trigger] s[j].key() ==> i == j,
        forall|i: int, j: int| 0 <= i < j < s.len() ==> chars_lt(#[trigger] s[i].key(), #[trigger] s[j].key()),
{
    assert forall|i: int| 0 <= i < s.len() implies table_map(s).contains_key(#[trigger] s[i].key())
        && table_map(s)[s[i].key()] == s[i] by {
        lemma_table_map_at(s, i);
    }
    assert forall|i: int, j: int|
        0 <= i < s.len() && 0 <= j < s.len() && #[trigger] s[i].key() == #[trigger] s[j].key() implies i == j by {
        if i < j {
            assert(chars_lt(s[i].key(), s[j].key()));
            lemma_chars_lt_irreflexive(s[i].key());
        } else if j < i {
            assert(chars_lt(s[j].key(), s[i].key()));
            lemma_chars_lt_irreflexive(s[i].key());
        }
    }
}

/// The record the map gives for a key carries that key.
pub proof fn lemma_table_map_key<T: Keyed>(s: Seq<T>, k: Seq<char>)
    requires
        table_map(s).contains_key(k),
    ensures
        table_map(s)[k].key() == k,
{
}

/// A key that no record carries is not in the map.
pub proof fn lemma_table_map_absent<T: Keyed>(s: Seq<T>, k: Seq<char>)
    requires
        forall|i: int| 0 <= i < s.len() ==> s[i].key() != k,
    ensures
        !table_map(s).contains_key(k),
{
}

/// Two sorted sequences denote the same map exactly when they are equal.
pub proof fn lemma_table_map_injective<T: Keyed>(a: Seq<T>, b: Seq<T>)
    requires
        keys_sorted(a),
        keys_sorted(b),
        table_map(a) == table_map(b),
    ensures
        a == b,
    decreases a.len() + b.len(),
{
    if a.len() == 0 || b.len() == 0 {
        if a.len() > 0 {
            lemma_table_map_at(a, 0);
        }
        if b.len() > 0 {
            lemma_table_map_at(b, 0);
        }
        assert(a =~= b);
    } else {
        // The smallest keys agree.
        lemma_table_map_at(a, 0);
        lemma_table_map_at(b, 0);
        let ka = a[0].key();
        let kb = b[0].key();
        let ia = choose|i: int| 0 <= i < a.len() && #[trigger] a[i].key() == kb;
        let ib = choose|i: int| 0 <= i < b.len() && #[trigger] b[i].key() == ka;
        assert(has_key(a, kb));
        assert(has_key(b, ka));
        if ka != kb {
            lemma_chars_lt_total(ka, kb);
            if chars_lt(ka, kb) {
                if ib > 0 {
                    assert(chars_lt(b[0].key(), b[ib].key()));
                    lemma_chars_lt_asymmetric(ka, kb);
                }
            } else {
                if ia > 0 {
                    assert(chars_lt(a[0].key(), a[ia].key()));
                    lemma_chars_lt_asymmetric(kb, ka);
                }
            }
        }
        assert(a[0] == b[0]);
        let ra = a.drop_first();
        let rb = b.drop_first();
        assert(keys_sorted(ra)) by {
            assert forall|i: int, j: int| 0 <= i < j < ra.len() implies chars_lt(
                #[trigger] ra[i].key(),
                #[trigger] ra[j].key(),
            ) by {
                assert(ra[i] == a[i + 1]);
                assert(ra[j] == a[j + 1]);
            }
        }
        assert(keys_sorted(rb)) by {
            assert forall|i: int, j: int| 0 <= i < j < rb.len() implies chars_lt(
                #[trigger] rb[i].key(),
                #[trigger] rb[j].key(),
            ) by {
                assert(rb[i] == b[i + 1]);
                assert(rb[j] == b[j + 1]);
            }
        }
        lemma_table_map_drop_first(a);
        lemma_table_map_drop_first(b);
        lemma_table_map_injective(ra, rb);
        assert(a =~= seq![a[0]] + ra);
        assert(b =~= seq![b[0]] + rb);
    }
}

/// Dropping the first record of a sorted sequence removes its key from the
/// map.
pub proof fn lemma_table_map_drop_first<T: Keyed>(s: Seq<T>)
    requires
        keys_sorted(s),
        s.len() > 0,
    ensures
        table_map(s.drop_first()) == table_map(s).remove(s[0].key()),
{
    let r = s.drop_first();
    assert(keys_sorted(r)) by {
        assert forall|i: int, j: int| 0 <= i < j < r.len() implies chars_lt(
            #[trigger] r[i].key(),
            #[trigger] r[j].key(),
        ) by {
            assert(r[i] == s[i + 1]);
            assert(r[j] == s[j + 1]);
        }
    }
    let k0 = s[0].key();
    assert forall|k: Seq<char>| #[trigger] table_map(r).contains_key(k) == table_map(s).remove(k0).contains_key(k) by {
        if table_map(r).contains_key(k) {
            let i = choose|i: int| 0 <= i < r.len() && #[trigger] r[i].key() == k;
            assert(s[i + 1].key() == k);
            assert(chars_lt(s[0].key(), s[i + 1].key()));
            if k == k0 {
                lemma_chars_lt_irreflexive(k);
            }
        }
        if table_map(s).remove(k0).contains_key(k) {
            let i = choose|i: int| 0 <= i < s.len() && #[trigger] s[i].key() == k;
            assert(i != 0);
            assert(r[i - 1].key() == k);
        }
    }
    assert forall|k: Seq<char>| #[trigger] table_map(r).contains_key(k) implies table_map(r)[k]
        == table_map(s)[k] by {
        let i = choose|i: int| 0 <= i < r.len() && #[trigger] r[i].key() == k;
        lemma_table_map_at(r, i);
        lemma_table_map_at(s, i + 1);
    }
    assert(table_map(r) =~= table_map(s).remove(k0));
}

/// An ordered table of records keyed by their own key.
#[derive(Debug, PartialEq, Eq)]
pub struct SortedTable<T: Keyed> {
    items: Vec<T>,
}

impl<T: Keyed> View for SortedTable<T> {
    type V = Seq<T>;

    closed spec fn view(&self) -> Seq<T> {
        self.items@
    }
}

impl<T: Keyed> Default for SortedTable<T> {
    fn default() -> (r: Self)
        ensures
            r@ == Seq::<T>::empty(),
            r.map() == Map::<Seq<char>, T>::empty(),
    {
        Self::new()
    }
}

impl<T: Keyed> SortedTable<T> {
    #[verifier::type_invariant]
    spec fn sorted(&self) -> bool {
        keys_sorted(self.items@)
    }

    /// The map from key to record that the table holds.
    pub open spec fn map(&self) -> Map<Seq<char>, T> {
        table_map(self@)
    }

    /// An empty table.
    pub fn new() -> (r: Self)
        ensures
            r@ == Seq::<T>::empty(),
            r.map() == Map::<Seq<char>, T>::empty(),
    {
        let r = SortedTable { items: Vec::new() };
        assert(table_map(r@) =~= Map::<Seq<char>, T>::empty());
        r
    }

    /// The number of records.
    pub fn len(&self) -> (r: usize)
        ensures
            r == self@.len(),
    {
        self.items.len()
    }

    /// The records in ascending key order.
    pub fn as_slice(&self) -> (r: &[T])
        ensures
            r@ == self@,
            keys_sorted(r@),
    {
        proof {
            use_type_invariant(self);
        }
        self.items.as_slice()
    }

    /// The position of the record with key `key`, if there is one.
    pub fn find(&self, key: &str) -> (r: Option<usize>)
        ensures
            keys_sorted(self@),
            r is Some <==> self.map().contains_key(key@),
            r matches Some(i) ==> i < self@.len() && self@[i as int].key() == key@ && self.map()[key@]
                == self@[i as int],
    {
        proof {
            use_type_invariant(self);
        }
        let mut i: usize = 0;
        while i < self.items.len()
            invariant
                keys_sorted(self.items@),
                i <= self.items@.len(),
                forall|j: int| 0 <= j < i ==> self.items@[j].key() != key@,
            decreases self.items.len() - i,
        {
            let k = self.items[i].key_str();
            if let KeyOrder::Equal = compare_str(k, key) {
                proof {
                    lemma_table_map_at(self.items@, i as int);
                }
                return Some(i);
            }
            i += 1;
        }
        proof {
            lemma_table_map_absent(self.items@, key@);
        }
        None
    }

    /// Whether some record has key `key`.
    pub fn contains(&self, key: &str) -> (r: bool)
        ensures
            r == self.map().contains_key(key@),
    {
        self.find(key).is_some()
    }

    /// The record with key `key`, if there is one.
    pub fn get(&self, key: &str) -> (r: Option<&T>)
        ensures
            r is Some <==> self.map().contains_key(key@),
            r matches Some(t) ==> *t == self.map()[key@],
    {
        match self.find(key) {
            Some(i) => Some(&self.items[i]),
            None => None,
        }
    }

    /// The record at position `i`.
    pub fn at(&self, i: usize) -> (r: &T)
        requires
            i < self@.len(),
        ensures
            *r == self@[i as int],
    {
        &self.items[i]
    }


    /// Takes the records out, leaving the table empty.
    fn take_items(&mut self) -> (r: Vec<T>)
        ensures
            r@ == old(self)@,
            keys_sorted(r@),
            final(self)@ == Seq::<T>::empty(),
    {
        proof {
            use_type_invariant(&*self);
        }
        let mut items: Vec<T> = Vec::new();
        std::mem::swap(&mut items, &mut self.items);
        items
    }

    /// Inserts `item`, replacing the record with the same key if there is one.
    pub fn insert(&mut self, item: T)
        ensures
            final(self).map() == old(self).map().insert(item.key(), item),
    {
        proof {
            use_type_invariant(&*self);
        }
        let ghost old_items = self.items@;
        let ghost k = item.key();
        let mut i: usize = 0;
        let mut found_equal = false;
        while i < self.items.len()
            invariant_except_break
                k == item.key(),
                old_items == self.items@,
                keys_sorted(old_items),
                i <= self.items@.len(),
                forall|j: int| 0 <= j < i ==> chars_lt(#[trigger] old_items[j].key(), k),
                !found_equal,
            ensures
                old_items == self.items@,
                keys_sorted(old_items),
                i <= self.items@.len(),
                forall|j: int| 0 <= j < i ==> chars_lt(#[trigger] old_items[j].key(), k),
                found_equal ==> i < old_items.len() && old_items[i as int].key() == k,
                !found_equal && i < old_items.len() ==> chars_lt(k, old_items[i as int].key()),
            decreases self.items.len() - i,
        {
            let current = &self.items[i];
            let order = compare_str(current.key_str(), item.key_str());
            assert(*current == old_items[i as int]);
            match order {
                KeyOrder::Less => {
                    assert(chars_lt(old_items[i as int].key(), k));
                    i += 1;
                },
                KeyOrder::Equal => {
                    assert(old_items[i as int].key() == k);
                    found_equal = true;
                    break;
                },
                KeyOrder::Greater => {
                    break;
                },
            }
        }
        if found_equal {
            let ghost new_items = old_items.update(i as int, item);
            proof {
                assert(keys_sorted(new_items)) by {
                    assert forall|a: int, b: int| 0 <= a < b < new_items.len() implies chars_lt(
                        #[trigger] new_items[a].key(),
                        #[trigger] new_items[b].key(),
                    ) by {
                        assert(chars_lt(old_items[a].key(), old_items[b].key()));
                    }
                }
                lemma_table_map_update(old_items, i as int, item);
            }
            let mut items = self.take_items();
            items.set(i, item);
            self.items = items;
        } else {
            let ghost new_items = old_items.insert(i as int, item);
            proof {
                assert forall|j: int| i <= j < old_items.len() implies chars_lt(k, #[trigger] old_items[j].key()) by {
                    if j > i {
                        assert(chars_lt(old_items[i as int].key(), old_items[j].key()));
                        lemma_chars_lt_transitive(k, old_items[i as int].key(), old_items[j].key());
                    }
                }
                assert(keys_sorted(new_items)) by {
                    assert forall|a: int, b: int| 0 <= a < b < new_items.len() implies chars_lt(
                        #[trigger] new_items[a].key(),
                        #[trigger] new_items[b].key(),
                    ) by {
                        if b < i {
                            assert(chars_lt(old_items[a].key(), old_items[b].key()));
                        } else if b == i {
                            assert(new_items[a] == old_items[a]);
                        } else if a < i {
                            assert(new_items[b] == old_items[b - 1]);
                            assert(chars_lt(old_items[a].key(), k));
                            lemma_chars_lt_transitive(old_items[a].key(), k, old_items[b - 1].key());
                        } else if a == i {
                            assert(new_items[b] == old_items[b - 1]);
                        } else {
                            assert(chars_lt(old_items[a - 1].key(), old_items[b - 1].key()));
                        }
                    }
                }
                lemma_table_map_insert(old_items, i as int, item);
            }
            let mut items = self.take_items();
            items.insert(i, item);
            self.items = items;
        }
    }

    /// Removes the record with key `key` and hands it back, if there is one.
    pub fn remove(&mut self, key: &str) -> (r: Option<T>)
        ensures
            final(self).map() == old(self).map().remove(key@),
            r is Some <==> old(self).map().contains_key(key@),
            r matches Some(t) ==> t == old(self).map()[key@],
    {
        match self.find(key) {
            Some(i) => {
                let ghost old_items = self.items@;
                proof {
                    use_type_invariant(&*self);
                    let new_items = old_items.remove(i as int);
                    assert(keys_sorted(new_items)) by {
                        assert forall|a: int, b: int| 0 <= a < b < new_items.len() implies chars_lt(
                            #[trigger] new_items[a].key(),
                            #[trigger] new_items[b].key(),
                        ) by {
                            if b < i {
                            } else if a < i {
                                assert(new_items[b] == old_items[b + 1]);
                                assert(chars_lt(old_items[a].key(), old_items[b + 1].key()));
                            } else {
                                assert(chars_lt(old_items[a + 1].key(), old_items[b + 1].key()));
                            }
                        }
                    }
                    lemma_table_map_remove(old_items, i as int);
                }
                let mut items = self.take_items();
                let t = items.remove(i);
                self.items = items;
                Some(t)
            },
            None => {
                assert(self.map().remove(key@) =~= self.map());
                None
            },
        }
    }

    /// Replaces the record at position `i` by one with the same key.
    pub fn replace_at(&mut self, i: usize, item: T)
        requires
            i < old(self)@.len(),
            item.key() == old(self)@[i as int].key(),
        ensures
            final(self)@ == old(self)@.update(i as int, item),
            final(self).map() == old(self).map().insert(item.key(), item),
    {
        proof {
            use_type_invariant(&*self);
            let old_items = self.items@;
            let new_items = old_items.update(i as int, item);
            assert(keys_sorted(new_items)) by {
                assert forall|a: int, b: int| 0 <= a < b < new_items.len() implies chars_lt(
                    #[trigger] new_items[a].key(),
                    #[trigger] new_items[b].key(),
                ) by {
                    assert(chars_lt(old_items[a].key(), old_items[b].key()));
                }
            }
            lemma_table_map_update(old_items, i as int, item);
        }
        let mut items = self.take_items();
        items.set(i, item);
        self.items = items;
    }
}

/// Replacing a record by one with the same key updates the map at that key.
proof fn lemma_table_map_update<T: Keyed>(s: Seq<T>, i: int, item: T)
    requires
        keys_sorted(s),
        0 <= i < s.len(),
        item.key() == s[i].key(),
    ensures
        keys_sorted(s.update(i, item)),
        table_map(s.update(i, item)) == table_map(s).insert(item.key(), item),
{
    let n = s.update(i, item);
    assert(keys_sorted(n)) by {
        assert forall|a: int, b: int| 0 <= a < b < n.len() implies chars_lt(
            #[trigger] n[a].key(),
            #[trigger] n[b].key(),
        ) by {
            assert(chars_lt(s[a].key(), s[b].key()));
        }
    }
    let m = table_map(s).insert(item.key(), item);
    assert forall|k: Seq<char>| #[trigger] table_map(n).contains_key(k) == m.contains_key(k) by {
        if table_map(n).contains_key(k) {
            let j = choose|j: int| 0 <= j < n.len() && #[trigger] n[j].key() == k;
            if j != i {
                assert(s[j].key() == k);
            }
        }
        if m.contains_key(k) && k != item.key() {
            let j = choose|j: int| 0 <= j < s.len() && #[trigger] s[j].key() == k;
            assert(n[j].key() == k);
        }
        if k == item.key() {
            assert(n[i].key() == k);
        }
    }
    assert forall|k: Seq<char>| #[trigger] table_map(n).contains_key(k) implies table_map(n)[k]
        == m[k] by {
        let j = choose|j: int| 0 <= j < n.len() && #[trigger] n[j].key() == k;
        lemma_table_map_at(n, j);
        if j != i {
            lemma_table_map_at(s, j);
            if j < i {
                assert(chars_lt(s[j].key(), s[i].key()));
            } else {
                assert(chars_lt(s[i].key(), s[j].key()));
            }
            lemma_chars_lt_irreflexive(k);
        }
    }
    assert(table_map(n) =~= m);
}

/// Inserting a record with a new key into a sorted position adds it to the
/// map.
proof fn lemma_table_map_insert<T: Keyed>(s: Seq<T>, i: int, item: T)
    requires
        keys_sorted(s),
        keys_sorted(s.insert(i, item)),
        0 <= i <= s.len(),
    ensures
        table_map(s.insert(i, item)) == table_map(s).insert(item.key(), item),
{
    let n = s.insert(i, item);
    let m = table_map(s).insert(item.key(), item);
    assert forall|k: Seq<char>| #[trigger] table_map(n).contains_key(k) == m.contains_key(k) by {
        if table_map(n).contains_key(k) {
            let j = choose|j: int| 0 <= j < n.len() && #[trigger] n[j].key() == k;
            if j < i {
                assert(s[j].key() == k);
            } else if j > i {
                assert(s[j - 1].key() == k);
            }
        }
        if m.contains_key(k) && k != item.key() {
            let j = choose|j: int| 0 <= j < s.len() && #[trigger] s[j].key() == k;
            if j < i {
                assert(n[j].key() == k);
            } else {
                assert(n[j + 1].key() == k);
            }
        }
        if k == item.key() {
            assert(n[i].key() == k);
        }
    }
    assert forall|k: Seq<char>| #[trigger] table_map(n).contains_key(k) implies table_map(n)[k]
        == m[k] by {
        let j = choose|j: int| 0 <= j < n.len() && #[trigger] n[j].key() == k;
        lemma_table_map_at(n, j);
        if j < i {
            lemma_table_map_at(s, j);
            assert(chars_lt(n[j].key(), n[i].key()));
            lemma_chars_lt_irreflexive(k);
        } else if j > i {
            lemma_table_map_at(s, j - 1);
            assert(chars_lt(n[i].key(), n[j].key()));
            lemma_chars_lt_irreflexive(k);
        }
    }
    assert(table_map(n) =~= m);
}

/// Removing a record from a sorted sequence removes its key from the map.
proof fn lemma_table_map_remove<T: Keyed>(s: Seq<T>, i: int)
    requires
        keys_sorted(s),
        keys_sorted(s.remove(i)),
        0 <= i < s.len(),
    ensures
        table_map(s.remove(i)) == table_map(s).remove(s[i].key()),
{
    let n = s.remove(i);
    let k0 = s[i].key();
    let m = table_map(s).remove(k0);
    assert forall|k: Seq<char>| #[trigger] table_map(n).contains_key(k) == m.contains_key(k) by {
        if table_map(n).contains_key(k) {
            let j = choose|j: int| 0 <= j < n.len() && #[trigger] n[j].key() == k;
            if j < i {
                assert(s[j].key() == k);
                assert(chars_lt(s[j].key(), s[i].key()));
                if k == k0 {
                    lemma_chars_lt_irreflexive(k);
                }
            } else {
                assert(s[j + 1].key() == k);
                assert(chars_lt(s[i].key(), s[j + 1].key()));
                if k == k0 {
                    lemma_chars_lt_irreflexive(k);
                }
            }
        }
        if m.contains_key(k) {
            let j = choose|j: int| 0 <= j < s.len() && #[trigger] s[j].key() == k;
            assert(j != i);
            if j < i {
                assert(n[j].key() == k);
            } else {
                assert(n[j - 1].key() == k);
            }
        }
    }
    assert forall|k: Seq<char>| #[trigger] table_map(n).contains_key(k) implies table_map(n)[k]
        == m[k] by {
        let j = choose|j: int| 0 <= j < n.len() && #[trigger] n[j].key() == k;
        lemma_table_map_at(n, j);
        if j < i {
            lemma_table_map_at(s, j);
        } else {
            lemma_table_map_at(s, j + 1);
        }
    }
    assert(table_map(n) =~= m);
}

} // verus!
