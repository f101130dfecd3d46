//! A table with one value per coin.

use crate::order_book::types::Coin;
use vstd::prelude::*;

verus! {

/// The table that a list of entries writes down, later entries replacing earlier ones.
pub open spec fn table_of<V>(entries: Seq<(Coin, V)>) -> Map<Seq<char>, V>
    decreases entries.len(),
{
    if entries.len() == 0 {
        Map::empty()
    } else {
        table_of(entries.drop_last()).insert(entries.last().0@, entries.last().1)
    }
}

/// No coin occurs twice.
pub open spec fn distinct_coins<V>(entries: Seq<(Coin, V)>) -> bool {
    forall|i: int, j: int|
        0 <= i < j < entries.len() ==> (#[trigger] entries[i]).0@ != (#[trigger] entries[j]).0@
}

/// What the table of a list of distinct entries holds, entry by entry.
pub proof fn lemma_table<V>(entries: Seq<(Coin, V)>)
    requires
        distinct_coins(entries),
    ensures
        forall|i: int|
            0 <= i < entries.len() ==> #[trigger] table_of(entries).contains_pair(
                entries[i].0@,
                entries[i].1,
            ),
        forall|k: Seq<char>| #[trigger]
            table_of(entries).contains_key(k) ==> exists|i: int|
                0 <= i < entries.len() && entries[i].0@ == k,
        table_of(entries).dom().finite(),
        table_of(entries).len() == entries.len(),
    decreases entries.len(),
{
    if entries.len() > 0 {
        let init = entries.drop_last();
        lemma_table(init);
        let k0 = entries.last().0@;
        assert(!table_of(init).contains_key(k0)) by {
            if table_of(init).contains_key(k0) {
                let i = choose|i: int| 0 <= i < init.len() && init[i].0@ == k0;
                assert(entries[i].0@ != entries[entries.len() - 1].0@);
            }
        }
        assert forall|i: int| 0 <= i < entries.len() implies #[trigger] table_of(
            entries,
        ).contains_pair(entries[i].0@, entries[i].1) by {
            if i < entries.len() - 1 {
                assert(init[i] == entries[i]);
                assert(table_of(init).contains_pair(init[i].0@, init[i].1));
                assert(entries[i].0@ != entries[entries.len() - 1].0@);
            }
        }
        assert forall|k: Seq<char>| #[trigger] table_of(entries).contains_key(k) implies exists|
            i: int,
        |
            0 <= i < entries.len() && entries[i].0@ == k by {
            if k == k0 {
                assert(entries[entries.len() - 1].0@ == k);
            } else {
                assert(table_of(init).contains_key(k));
                let i = choose|i: int| 0 <= i < init.len() && init[i].0@ == k;
                assert(entries[i].0@ == k);
            }
        }
    }
}

/// Two lists of distinct entries that hold the same pairs write the same table.
proof fn lemma_same_pairs<V>(entries: Seq<(Coin, V)>, table: Map<Seq<char>, V>)
    requires
        distinct_coins(entries),
        forall|i: int|
            0 <= i < entries.len() ==> #[trigger] table.contains_pair(entries[i].0@, entries[i].1),
        forall|k: Seq<char>| #[trigger]
            table.contains_key(k) ==> exists|i: int| 0 <= i < entries.len() && entries[i].0@ == k,
    ensures
        table_of(entries) == table,
{
    lemma_table(entries);
    assert forall|k: Seq<char>| #![trigger table.contains_key(k)] table.contains_key(k) implies {
        &&& table_of(entries).contains_key(k)
        &&& table_of(entries)[k] == table[k]
    } by {
        let i = choose|i: int| 0 <= i < entries.len() && entries[i].0@ == k;
        assert(table_of(entries).contains_pair(entries[i].0@, entries[i].1));
        assert(table.contains_pair(entries[i].0@, entries[i].1));
    }
    assert forall|k: Seq<char>| table_of(entries).contains_key(k) implies table.contains_key(k) by {
        let i = choose|i: int| 0 <= i < entries.len() && entries[i].0@ == k;
        assert(table.contains_pair(entries[i].0@, entries[i].1));
    }
    assert(table_of(entries) =~= table);
}

/// Two lists with the same coins, and values that read the same, write tables that read the same.
pub proof fn lemma_table_mapped<V, W, X>(
    a: Seq<(Coin, V)>,
    b: Seq<(Coin, W)>,
    f: spec_fn(V) -> X,
    g: spec_fn(W) -> X,
)
    requires
        a.len() == b.len(),
        forall|i: int|
            0 <= i < a.len() ==> (#[trigger] a[i]).0@ == (#[trigger] b[i]).0@ && f(a[i].1) == g(
                b[i].1,
            ),
    ensures
        table_of(a).map_values(f) == table_of(b).map_values(g),
        distinct_coins(a) ==> distinct_coins(b),
    decreases a.len(),
{
    if a.len() > 0 {
        let (a0, b0) = (a.drop_last(), b.drop_last());
        assert forall|i: int| 0 <= i < a0.len() implies (#[trigger] a0[i]).0@ == (
        #[trigger] b0[i]).0@ && f(a0[i].1) == g(b0[i].1) by {
            assert(a[i].0@ == b[i].0@);
        }
        lemma_table_mapped(a0, b0, f, g);
        assert(a[a.len() - 1].0@ == b[b.len() - 1].0@);
        assert(table_of(a).map_values(f) =~= table_of(a0).map_values(f).insert(
            a.last().0@,
            f(a.last().1),
        ));
        assert(table_of(b).map_values(g) =~= table_of(b0).map_values(g).insert(
            b.last().0@,
            g(b.last().1),
        ));
    } else {
        assert(table_of(a).map_values(f) =~= table_of(b).map_values(g));
    }
    if distinct_coins(a) {
        assert forall|i: int, j: int| 0 <= i < j < b.len() implies (#[trigger] b[i]).0@ != (
        #[trigger] b[j]).0@ by {
            assert(a[i].0@ == b[i].0@);
            assert(a[j].0@ == b[j].0@);
        }
    }
}

/// One value per coin.
#[derive(Debug)]
pub struct CoinMap<V> {
    entries: Vec<(Coin, V)>,
}

impl<V> View for CoinMap<V> {
    type V = Map<Seq<char>, V>;

    closed spec fn view(&self) -> Map<Seq<char>, V> {
        table_of(self.entries@)
    }
}

impl<V> CoinMap<V> {
    #[verifier::type_invariant]
    spec fn holds_no_coin_twice(&self) -> bool {
        distinct_coins(self.entries@)
    }

    pub fn new() -> (table: CoinMap<V>)
        ensures
            table@ == Map::<Seq<char>, V>::empty(),
    {
        CoinMap { entries: Vec::new() }
    }

    /// The position of a coin's entry, or the number of entries.
    fn position(&self, coin: &Coin) -> (at: usize)
        ensures
            at <= self.entries@.len(),
            at < self.entries@.len() ==> self.entries@[at as int].0@ == coin@,
            at == self.entries@.len() ==> !self@.contains_key(coin@),
            at < self.entries@.len() ==> self@.contains_pair(coin@, self.entries@[at as int].1),
    {
        proof {
            use_type_invariant(self);
            lemma_table(self.entries@);
        }
        let len: usize = self.entries.len();
        let mut at: usize = 0;
        while at < len
            invariant
                len == self.entries@.len(),
                at <= len,
                forall|i: int| 0 <= i < at ==> (#[trigger] self.entries@[i]).0@ != coin@,
                forall|i: int|
                    0 <= i < self.entries@.len() ==> #[trigger] self@.contains_pair(
                        self.entries@[i].0@,
                        self.entries@[i].1,
                    ),
            decreases len - at,
        {
            if self.entries[at].0.is(coin) {
                assert(self@.contains_pair(
                    self.entries@[at as int].0@,
                    self.entries@[at as int].1,
                ));
                return at;
            }
            at = at + 1;
        }
        at
    }

    pub fn contains(&self, coin: &Coin) -> (found: bool)
        ensures
            found == self@.contains_key(coin@),
    {
        self.position(coin) < self.entries.len()
    }

    pub fn get(&self, coin: &Coin) -> (value: Option<&V>)
        ensures
            match value {
                Some(value) => self@.contains_pair(coin@, *value),
                None => !self@.contains_key(coin@),
            },
    {
        let at = self.position(coin);
        if at < self.entries.len() {
            Some(&self.entries[at].1)
        } else {
            None
        }
    }

    pub fn len(&self) -> (len: usize)
        ensures
            len == self@.len(),
            self@.dom().finite(),
    {
        proof {
            use_type_invariant(self);
            lemma_table(self.entries@);
        }
        self.entries.len()
    }

    /// Puts a value in, in place of the one that the coin had.
    pub fn insert(&mut self, coin: Coin, value: V)
        ensures
            final(self)@ == old(self)@.insert(coin@, value),
    {
        proof {
            use_type_invariant(&*self);
        }
        let at = self.position(&coin);
        let ghost before = self.entries@;
        let ghost name = coin@;
        let mut entries: Vec<(Coin, V)> = Vec::new();
        std::mem::swap(&mut entries, &mut self.entries);
        proof {
            lemma_table(before);
        }
        if at < entries.len() {
            entries.set(at, (coin, value));
            proof {
                let after = entries@;
                let table = table_of(before).insert(name, value);
                assert forall|i: int| 0 <= i < after.len() implies #[trigger] table.contains_pair(
                    after[i].0@,
                    after[i].1,
                ) by {
                    if i != at {
                        assert(after[i] == before[i]);
                        assert(table_of(before).contains_pair(before[i].0@, before[i].1));
                        if i < at {
                            assert(before[i].0@ != before[at as int].0@);
                        } else {
                            assert(before[at as int].0@ != before[i].0@);
                        }
                    }
                }
                assert forall|k: Seq<char>| #[trigger] table.contains_key(k) implies exists|i: int|
                    0 <= i < after.len() && after[i].0@ == k by {
                    if k == name {
                        assert(after[at as int].0@ == k);
                    } else {
                        assert(table_of(before).contains_key(k));
                        let i = choose|i: int| 0 <= i < before.len() && before[i].0@ == k;
                        assert(after[i].0@ == k);
                    }
                }
                lemma_same_pairs(after, table);
            }
        } else {
            entries.push((coin, value));
            proof {
                let after = entries@;
                assert(after.drop_last() =~= before);
                assert forall|i: int, j: int| 0 <= i < j < after.len() implies (
                #[trigger] after[i]).0@ != (#[trigger] after[j]).0@ by {
                    assert(after[i] == before[i]);
                    assert(table_of(before).contains_pair(before[i].0@, before[i].1));
                    if j < before.len() {
                        assert(after[j] == before[j]);
                    }
                }
            }
        }
        self.entries = entries;
    }

    /// Takes a coin's value out.
    pub fn remove(&mut self, coin: &Coin) -> (value: Option<V>)
        ensures
            final(self)@ == old(self)@.remove(coin@),
            match value {
                Some(value) => old(self)@.contains_pair(coin@, value),
                None => !old(self)@.contains_key(coin@),
            },
    {
        proof {
            use_type_invariant(&*self);
        }
        let at = self.position(coin);
        let ghost before = self.entries@;
        let mut entries: Vec<(Coin, V)> = Vec::new();
        std::mem::swap(&mut entries, &mut self.entries);
        proof {
            lemma_table(before);
        }
        if at < entries.len() {
            let (_, value) = entries.swap_remove(at);
            proof {
                let after = entries@;
                let last = before.len() - 1;
                let table = table_of(before).remove(coin@);
                // Where the entry now at position `i` stood before.
                let from = |i: int|
                    if i == at {
                        last
                    } else {
                        i
                    };
                assert forall|i: int| 0 <= i < after.len() implies #[trigger] after[i]
                    == before[from(i)] by {}
                assert forall|i: int, j: int| 0 <= i < j < after.len() implies (
                #[trigger] after[i]).0@ != (#[trigger] after[j]).0@ by {
                    assert(after[i] == before[from(i)]);
                    assert(after[j] == before[from(j)]);
                }
                assert forall|i: int| 0 <= i < after.len() implies #[trigger] table.contains_pair(
                    after[i].0@,
                    after[i].1,
                ) by {
                    assert(after[i] == before[from(i)]);
                    assert(table_of(before).contains_pair(
                        before[from(i)].0@,
                        before[from(i)].1,
                    ));
                    assert(from(i) != at);
                    assert(before[from(i)].0@ != before[at as int].0@);
                }
                assert forall|k: Seq<char>| #[trigger] table.contains_key(k) implies exists|i: int|
                    0 <= i < after.len() && after[i].0@ == k by {
                    assert(table_of(before).contains_key(k));
                    let i = choose|i: int| 0 <= i < before.len() && before[i].0@ == k;
                    assert(i != at);
                    let j = if i == last {
                        at as int
                    } else {
                        i
                    };
                    assert(after[j] == before[from(j)]);
                    assert(after[j].0@ == k);
                }
                lemma_same_pairs(after, table);
            }
            self.entries = entries;
            Some(value)
        } else {
            self.entries = entries;
            assert(old(self)@.remove(coin@) =~= old(self)@);
            None
        }
    }

    /// The entries, each coin once.
    pub fn entries(&self) -> (entries: &Vec<(Coin, V)>)
        ensures
            distinct_coins(entries@),
            table_of(entries@) == self@,
    {
        proof {
            use_type_invariant(self);
        }
        &self.entries
    }

    /// The entries, each coin once.
    pub fn into_entries(self) -> (entries: Vec<(Coin, V)>)
        ensures
            distinct_coins(entries@),
            table_of(entries@) == self@,
    {
        proof {
            use_type_invariant(&self);
        }
        self.entries
    }

    /// The table of a list of entries that holds no coin twice.
    pub fn from_entries(entries: Vec<(Coin, V)>) -> (table: CoinMap<V>)
        requires
            distinct_coins(entries@),
        ensures
            table@ == table_of(entries@),
    {
        CoinMap { entries }
    }
}

impl Clone for CoinMap<u64> {
    fn clone(&self) -> (copy: CoinMap<u64>)
        ensures
            copy@ == self@,
    {
        let entries = self.entries();
        let mut copies: Vec<(Coin, u64)> = Vec::new();
        let mut at: usize = 0;
        while at < entries.len()
            invariant
                at <= entries@.len(),
                copies@ =~= entries@.take(at as int),
            decreases entries@.len() - at,
        {
            copies.push((entries[at].0.clone(), entries[at].1));
            at = at + 1;
        }
        assert(entries@.take(at as int) =~= entries@);
        CoinMap::from_entries(copies)
    }
}

} // verus!
