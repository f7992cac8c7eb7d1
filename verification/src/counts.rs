//! A map from key names to press counts, as kept in memory and stored per day.
use vstd::prelude::*;

verus! {

/// The count that a map gives a key: zero where the key is absent.
pub open spec fn count_of(m: Map<Seq<char>, u64>, k: Seq<char>) -> nat {
    if m.contains_key(k) {
        m[k] as nat
    } else {
        0
    }
}

/// Whether adding `b` to `a` key by key stays within `u64`.
pub open spec fn sums_fit(a: Map<Seq<char>, u64>, b: Map<Seq<char>, u64>) -> bool {
    forall|k: Seq<char>| count_of(a, k) + count_of(b, k) <= u64::MAX
}

/// The key-by-key sum of two count maps.
pub open spec fn sum_counts(a: Map<Seq<char>, u64>, b: Map<Seq<char>, u64>) -> Map<Seq<char>, u64> {
    Map::new(
        |k: Seq<char>| a.contains_key(k) || b.contains_key(k),
        |k: Seq<char>| (count_of(a, k) + count_of(b, k)) as u64,
    )
}

/// The map that a list of (key, count) entries stands for.
pub open spec fn entries_view<V>(s: Seq<(String, V)>) -> Map<Seq<char>, V> {
    Map::new(
        |k: Seq<char>| exists|i: int| 0 <= i < s.len() && #[trigger] s[i].0@ == k,
        |k: Seq<char>| s[choose|i: int| 0 <= i < s.len() && #[trigger] s[i].0@ == k].1,
    )
}

/// No key occurs twice in a list of entries.
pub open spec fn keys_distinct<V>(s: Seq<(String, V)>) -> bool {
    forall|i: int, j: int| 0 <= i < s.len() && 0 <= j < s.len() && i != j ==> #[trigger] s[i].0@ != #[trigger] s[j].0@
}

pub proof fn lemma_view_at<V>(s: Seq<(String, V)>, i: int)
    requires
        keys_distinct(s),
        0 <= i < s.len(),
    ensures
        entries_view(s).contains_key(s[i].0@),
        entries_view(s)[s[i].0@] == s[i].1,
{
    let k = s[i].0@;
    assert(exists|j: int| 0 <= j < s.len() && #[trigger] s[j].0@ == k);
    let j = choose|j: int| 0 <= j < s.len() && #[trigger] s[j].0@ == k;
    assert(j == i);
}

pub proof fn lemma_view_push<V>(s: Seq<(String, V)>, key: String, v: V)
    requires
        keys_distinct(s),
        !entries_view(s).contains_key(key@),
    ensures
        keys_distinct(s.push((key, v))),
        entries_view(s.push((key, v))) == entries_view(s).insert(key@, v),
{
    let t = s.push((key, v));
    assert forall|i: int, j: int| 0 <= i < t.len() && 0 <= j < t.len() && i != j implies #[trigger] t[i].0@ != #[trigger] t[j].0@ by {
        if i == s.len() {
            assert(t[j] == s[j]);
            lemma_view_at(s, j);
        } else if j == s.len() {
            assert(t[i] == s[i]);
            lemma_view_at(s, i);
        } else {
            assert(t[i] == s[i] && t[j] == s[j]);
        }
    }
    let a = entries_view(t);
    let b = entries_view(s).insert(key@, v);
    assert forall|k: Seq<char>| #[trigger] a.contains_key(k) <==> b.contains_key(k) by {
        if b.contains_key(k) {
            if k == key@ {
                assert(t[s.len() as int].0@ == k);
            } else {
                let i = choose|i: int| 0 <= i < s.len() && #[trigger] s[i].0@ == k;
                assert(t[i] == s[i]);
            }
        }
        if a.contains_key(k) {
            let i = choose|i: int| 0 <= i < t.len() && #[trigger] t[i].0@ == k;
            if i < s.len() {
                assert(t[i] == s[i]);
            }
        }
    }
    assert forall|k: Seq<char>| a.contains_key(k) implies #[trigger] a[k] == b[k] by {
        let i = choose|i: int| 0 <= i < t.len() && #[trigger] t[i].0@ == k;
        lemma_view_at(t, i);
        if i < s.len() {
            assert(t[i] == s[i]);
            lemma_view_at(s, i);
        }
    }
    assert(a =~= b);
}

pub proof fn lemma_view_update<V>(s: Seq<(String, V)>, i: int, v: V)
    requires
        keys_distinct(s),
        0 <= i < s.len(),
    ensures
        keys_distinct(s.update(i, (s[i].0, v))),
        entries_view(s.update(i, (s[i].0, v))) == entries_view(s).insert(s[i].0@, v),
{
    let t = s.update(i, (s[i].0, v));
    assert forall|p: int, q: int| 0 <= p < t.len() && 0 <= q < t.len() && p != q implies #[trigger] t[p].0@ != #[trigger] t[q].0@ by {
        assert(t[p].0 == s[p].0 && t[q].0 == s[q].0);
    }
    let a = entries_view(t);
    let b = entries_view(s).insert(s[i].0@, v);
    assert forall|k: Seq<char>| #[trigger] a.contains_key(k) <==> b.contains_key(k) by {
        if b.contains_key(k) {
            if k == s[i].0@ {
                assert(t[i].0@ == k);
            } else {
                let j = choose|j: int| 0 <= j < s.len() && #[trigger] s[j].0@ == k;
                assert(t[j].0 == s[j].0);
            }
        }
        if a.contains_key(k) {
            let j = choose|j: int| 0 <= j < t.len() && #[trigger] t[j].0@ == k;
            assert(t[j].0 == s[j].0);
        }
    }
    assert forall|k: Seq<char>| a.contains_key(k) implies #[trigger] a[k] == b[k] by {
        let j = choose|j: int| 0 <= j < t.len() && #[trigger] t[j].0@ == k;
        lemma_view_at(t, j);
        if j != i {
            assert(t[j] == s[j]);
            lemma_view_at(s, j);
        }
    }
    assert(a =~= b);
}

/// Counts per key name. No key occurs twice.
pub struct CountMap {
    entries: Vec<(String, u64)>,
}

impl View for CountMap {
    type V = Map<Seq<char>, u64>;

    closed spec fn view(&self) -> Map<Seq<char>, u64> {
        entries_view(self.entries@)
    }
}

impl CountMap {
    #[verifier::type_invariant]
    closed spec fn inv(self) -> bool {
        keys_distinct(self.entries@)
    }

    /// The entries, in the order in which their keys were first inserted.
    pub closed spec fn entries_seq(self) -> Seq<(String, u64)> {
        self.entries@
    }

    /// An empty map.
    pub fn new() -> (m: CountMap)
        ensures
            m@ == Map::<Seq<char>, u64>::empty(),
    {
        let m = CountMap { entries: Vec::new() };
        assert(m@ =~= Map::<Seq<char>, u64>::empty());
        m
    }

    /// The number of keys.
    pub fn len(&self) -> (n: usize)
        ensures
            n == self@.dom().len(),
    {
        proof {
            use_type_invariant(self);
            lemma_view_finite(self.entries@);
        }
        self.entries.len()
    }

    /// Whether no key has a count.
    pub fn is_empty(&self) -> (b: bool)
        ensures
            b == (self@.dom().len() == 0),
            b <==> self@ == Map::<Seq<char>, u64>::empty(),
    {
        proof {
            use_type_invariant(self);
            lemma_view_finite(self.entries@);
            if self@.dom().len() == 0 {
                assert(self@ =~= Map::<Seq<char>, u64>::empty());
            }
        }
        self.entries.len() == 0
    }

    fn find(&self, key: &String) -> (r: Option<usize>)
        ensures
            match r {
                Some(i) => i < self.entries@.len() && self.entries@[i as int].0@ == key@,
                None => !self@.contains_key(key@),
            },
    {
        let mut i: usize = 0;
        while i < self.entries.len()
            invariant
                i <= self.entries@.len(),
                forall|j: int| 0 <= j < i ==> #[trigger] self.entries@[j].0@ != key@,
            decreases self.entries@.len() - i,
        {
            if self.entries[i].0 == *key {
                return Some(i);
            }
            i = i + 1;
        }
        proof {
            if self@.contains_key(key@) {
                let j = choose|j: int| 0 <= j < self.entries@.len() && #[trigger] self.entries@[j].0@ == key@;
                assert(self.entries@[j].0@ != key@);
            }
        }
        None
    }

    /// The count of `key`, if it has one.
    pub fn get(&self, key: &str) -> (r: Option<&u64>)
        ensures
            match r {
                Some(v) => self@.contains_key(key@) && *v == self@[key@],
                None => !self@.contains_key(key@),
            },
    {
        proof {
            use_type_invariant(self);
        }
        let k = key.to_owned();
        match self.find(&k) {
            Some(i) => {
                proof {
                    lemma_view_at(self.entries@, i as int);
                }
                Some(&self.entries[i].1)
            },
            None => None,
        }
    }

    /// Whether `key` has a count.
    pub fn contains_key(&self, key: &str) -> (b: bool)
        ensures
            b == self@.contains_key(key@),
    {
        match self.get(key) {
            Some(_) => true,
            None => false,
        }
    }

    /// Sets the count of `key`, returning its previous count.
    pub fn insert(&mut self, key: String, count: u64) -> (prev: Option<u64>)
        ensures
            final(self)@ == old(self)@.insert(key@, count),
            match prev {
                Some(v) => old(self)@.contains_key(key@) && v == old(self)@[key@],
                None => !old(self)@.contains_key(key@),
            },
    {
        proof {
            use_type_invariant(&*self);
        }
        match self.find(&key) {
            Some(i) => {
                let prev = self.entries[i].1;
                proof {
                    lemma_view_at(self.entries@, i as int);
                    lemma_view_update(self.entries@, i as int, count);
                }
                let k = self.entries[i].0.clone();
                let mut entries: Vec<(String, u64)> = Vec::new();
                std::mem::swap(&mut entries, &mut self.entries);
                entries.set(i, (k, count));
                self.entries = entries;
                Some(prev)
            },
            None => {
                proof {
                    lemma_view_push(self.entries@, key, count);
                }
                let mut entries: Vec<(String, u64)> = Vec::new();
                std::mem::swap(&mut entries, &mut self.entries);
                entries.push((key, count));
                self.entries = entries;
                None
            },
        }
    }

    /// Adds `amount` to the count of `key`, which starts from zero when absent.
    pub fn add(&mut self, key: &String, amount: u64)
        requires
            count_of(old(self)@, key@) + amount <= u64::MAX,
        ensures
            final(self)@ == old(self)@.insert(key@, (count_of(old(self)@, key@) + amount) as u64),
    {
        proof {
            use_type_invariant(&*self);
        }
        match self.find(key) {
            Some(i) => {
                let prev = self.entries[i].1;
                proof {
                    lemma_view_at(self.entries@, i as int);
                    lemma_view_update(self.entries@, i as int, (prev + amount) as u64);
                }
                let k = self.entries[i].0.clone();
                let mut entries: Vec<(String, u64)> = Vec::new();
                std::mem::swap(&mut entries, &mut self.entries);
                entries.set(i, (k, prev + amount));
                self.entries = entries;
            },
            None => {
                let k = key.clone();
                proof {
                    lemma_view_push(self.entries@, k, amount);
                }
                let mut entries: Vec<(String, u64)> = Vec::new();
                std::mem::swap(&mut entries, &mut self.entries);
                entries.push((k, amount));
                self.entries = entries;
            },
        }
    }

    /// The number of entries, which is the number of keys; the map holds
    /// exactly its entries, no key twice.
    pub fn entry_count(&self) -> (n: usize)
        ensures
            n == self.entries_seq().len(),
            keys_distinct(self.entries_seq()),
            self@ == entries_view(self.entries_seq()),
            self@.dom().finite(),
            self@.dom().len() == n,
    {
        proof {
            use_type_invariant(self);
            lemma_view_finite(self.entries@);
        }
        self.entries.len()
    }

    /// The `i`-th entry, in insertion order.
    pub fn entry_at(&self, i: usize) -> (e: (&String, u64))
        requires
            i < self.entries_seq().len(),
        ensures
            *e.0 == self.entries_seq()[i as int].0,
            e.1 == self.entries_seq()[i as int].1,
            self@.contains_key(e.0@),
            self@[e.0@] == e.1,
    {
        proof {
            use_type_invariant(self);
            lemma_view_at(self.entries@, i as int);
        }
        (&self.entries[i].0, self.entries[i].1)
    }

    /// Adds every count of `other` to this map, key by key.
    pub fn add_all(&mut self, other: &CountMap)
        requires
            sums_fit(old(self)@, other@),
        ensures
            final(self)@ == sum_counts(old(self)@, other@),
    {
        let n = other.entry_count();
        let ghost s = other.entries_seq();
        let ghost a = self@;
        assert(entries_view(s.take(0)) =~= Map::<Seq<char>, u64>::empty());
        assert(sum_counts(a, Map::<Seq<char>, u64>::empty()) =~= a);
        let mut i: usize = 0;
        while i < n
            invariant
                n == s.len(),
                s == other.entries_seq(),
                keys_distinct(s),
                other@ == entries_view(s),
                sums_fit(a, other@),
                i <= n,
                self@ == sum_counts(a, entries_view(s.take(i as int))),
            decreases n - i,
        {
            let (k, v) = other.entry_at(i);
            proof {
                lemma_view_take_step(s, i as int);
                lemma_sum_insert(a, entries_view(s.take(i as int)), k@, v);
                assert(count_of(other@, k@) == v);
                assert(count_of(a, k@) + count_of(other@, k@) <= u64::MAX);
            }
            self.add(k, v);
            i = i + 1;
        }
        assert(s.take(n as int) =~= s);
    }

    /// Whether adding `other` to this map key by key stays within `u64`.
    pub fn can_add_all(&self, other: &CountMap) -> (b: bool)
        ensures
            b == sums_fit(self@, other@),
    {
        let n = other.entry_count();
        let ghost s = other.entries_seq();
        let mut i: usize = 0;
        while i < n
            invariant
                n == s.len(),
                s == other.entries_seq(),
                keys_distinct(s),
                other@ == entries_view(s),
                i <= n,
                forall|j: int| 0 <= j < i ==> count_of(self@, (#[trigger] s[j]).0@) + s[j].1 <= u64::MAX,
            decreases n - i,
        {
            let (k, v) = other.entry_at(i);
            let mine: u64 = match self.get(k.as_str()) {
                Some(c) => *c,
                None => 0,
            };
            if mine > u64::MAX - v {
                proof {
                    assert(count_of(other@, k@) == v);
                    assert(count_of(self@, k@) + count_of(other@, k@) > u64::MAX);
                }
                return false;
            }
            i = i + 1;
        }
        proof {
            assert forall|k: Seq<char>| count_of(self@, k) + count_of(other@, k) <= u64::MAX by {
                if other@.contains_key(k) {
                    let j = choose|j: int| 0 <= j < s.len() && #[trigger] s[j].0@ == k;
                    lemma_view_at(s, j);
                    assert(count_of(self@, s[j].0@) + s[j].1 <= u64::MAX);
                }
            }
        }
        true
    }

    /// A copy of the map.
    pub fn duplicate(&self) -> (m: CountMap)
        ensures
            m@ == self@,
            m.entries_seq() == self.entries_seq(),
    {
        proof {
            use_type_invariant(self);
        }
        let mut entries: Vec<(String, u64)> = Vec::new();
        let mut i: usize = 0;
        while i < self.entries.len()
            invariant
                i <= self.entries@.len(),
                entries@ == self.entries@.take(i as int),
            decreases self.entries@.len() - i,
        {
            let k = self.entries[i].0.clone();
            entries.push((k, self.entries[i].1));
            assert(entries@ =~= self.entries@.take(i + 1));
            i = i + 1;
        }
        assert(entries@ =~= self.entries@);
        CountMap { entries }
    }
}

proof fn lemma_sum_insert(a: Map<Seq<char>, u64>, m: Map<Seq<char>, u64>, k: Seq<char>, v: u64)
    requires
        !m.contains_key(k),
        count_of(a, k) + v <= u64::MAX,
    ensures
        sum_counts(a, m.insert(k, v)) == sum_counts(a, m).insert(k, (count_of(a, k) + v) as u64),
{
    assert(sum_counts(a, m.insert(k, v)) =~= sum_counts(a, m).insert(k, (count_of(a, k) + v) as u64));
}

pub proof fn lemma_take_distinct<V>(s: Seq<(String, V)>, n: int)
    requires
        keys_distinct(s),
        0 <= n <= s.len(),
    ensures
        keys_distinct(s.take(n)),
{
    let t = s.take(n);
    assert forall|i: int, j: int| 0 <= i < t.len() && 0 <= j < t.len() && i != j implies #[trigger] t[i].0@ != #[trigger] t[j].0@ by {
        assert(t[i] == s[i] && t[j] == s[j]);
    }
}

/// Adding the `i`-th entry extends the view of the first `i` entries.
pub proof fn lemma_view_take_step<V>(s: Seq<(String, V)>, i: int)
    requires
        keys_distinct(s),
        0 <= i < s.len(),
    ensures
        !entries_view(s.take(i)).contains_key(s[i].0@),
        entries_view(s.take(i + 1)) == entries_view(s.take(i)).insert(s[i].0@, s[i].1),
        entries_view(s.take(s.len() as int)) == entries_view(s),
{
    lemma_take_distinct(s, i);
    let t = s.take(i);
    if entries_view(t).contains_key(s[i].0@) {
        let j = choose|j: int| 0 <= j < t.len() && #[trigger] t[j].0@ == s[i].0@;
        assert(t[j] == s[j]);
    }
    lemma_view_push(t, s[i].0, s[i].1);
    assert(t.push(s[i]) =~= s.take(i + 1));
    assert(s.take(s.len() as int) =~= s);
}

pub proof fn lemma_view_finite<V>(s: Seq<(String, V)>)
    requires
        keys_distinct(s),
    ensures
        entries_view(s).dom().finite(),
        entries_view(s).dom().len() == s.len(),
    decreases s.len(),
{
    if s.len() == 0 {
        assert(entries_view(s).dom() =~= Set::<Seq<char>>::empty());
    } else {
        let p = s.drop_last();
        assert(keys_distinct(p)) by {
            assert forall|i: int, j: int| 0 <= i < p.len() && 0 <= j < p.len() && i != j implies #[trigger] p[i].0@ != #[trigger] p[j].0@ by {
                assert(p[i] == s[i] && p[j] == s[j]);
            }
        }
        lemma_view_finite(p);
        let last = s.last();
        assert(!entries_view(p).contains_key(last.0@)) by {
            if entries_view(p).contains_key(last.0@) {
                let i = choose|i: int| 0 <= i < p.len() && #[trigger] p[i].0@ == last.0@;
                assert(p[i] == s[i]);
                assert(s[s.len() - 1] == last);
            }
        }
        lemma_view_push(p, last.0, last.1);
        assert(p.push(last) =~= s);
    }
}

} // verus!
