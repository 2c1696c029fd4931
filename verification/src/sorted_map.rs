//! An ordered map kept as one ascending list of entries.
use vstd::prelude::*;

verus! {

/// A value that can key a [`SortedMap`]: it has an integer rank that tells it apart from every
/// other value of its type, and entries are listed by ascending rank.
pub trait Key: Sized + Copy {
    /// The place of this key in the listing order.
    spec fn rank(self) -> int;

    /// Two keys of one rank are one key.
    proof fn rank_is_injective(a: Self, b: Self)
        requires
            a.rank() == b.rank(),
        ensures
            a == b,
    ;

    /// Whether this key is listed before `other`.
    fn before(&self, other: &Self) -> (r: bool)
        ensures
            r == (self.rank() < other.rank()),
    ;
}

impl Key for i64 {
    open spec fn rank(self) -> int {
        self as int
    }

    proof fn rank_is_injective(a: Self, b: Self) {
    }

    fn before(&self, other: &Self) -> (r: bool) {
        *self < *other
    }
}

impl Key for usize {
    open spec fn rank(self) -> int {
        self as int
    }

    proof fn rank_is_injective(a: Self, b: Self) {
    }

    fn before(&self, other: &Self) -> (r: bool) {
        *self < *other
    }
}

/// The entries stand in strictly ascending rank.
pub open spec fn ascending<K: Key, V>(entries: Seq<(K, V)>) -> bool {
    forall|i: int, j: int|
        0 <= i < j < entries.len() ==> (#[trigger] entries[i]).0.rank() < (
        #[trigger] entries[j]).0.rank()
}

/// What a list of entries maps: of two entries with one key the later counts.
pub open spec fn map_of<K, V>(entries: Seq<(K, V)>) -> Map<K, V>
    decreases entries.len(),
{
    if entries.len() == 0 {
        Map::empty()
    } else {
        map_of(entries.drop_last()).insert(entries.last().0, entries.last().1)
    }
}

/// An ascending list maps exactly the keys it holds, each to the value beside it.
pub proof fn map_of_ascending<K: Key, V>(entries: Seq<(K, V)>)
    requires
        ascending(entries),
    ensures
        forall|i: int|
            0 <= i < entries.len() ==> map_of(entries).contains_key((#[trigger] entries[i]).0)
                && map_of(entries)[entries[i].0] == entries[i].1,
        forall|k: K| #[trigger]
            map_of(entries).contains_key(k) ==> exists|i: int|
                0 <= i < entries.len() && (#[trigger] entries[i]).0 == k,
    decreases entries.len(),
{
    if entries.len() > 0 {
        let front = entries.drop_last();
        let last = entries.last();
        assert forall|i: int, j: int| 0 <= i < j < front.len() implies (
        #[trigger] front[i]).0.rank() < (#[trigger] front[j]).0.rank() by {
            assert(front[i] == entries[i] && front[j] == entries[j]);
        }
        map_of_ascending(front);
        assert forall|i: int| 0 <= i < entries.len() implies map_of(entries).contains_key(
            (#[trigger] entries[i]).0,
        ) && map_of(entries)[entries[i].0] == entries[i].1 by {
            if i < front.len() {
                assert(front[i] == entries[i]);
                assert(entries[i].0.rank() < entries[entries.len() - 1].0.rank());
            }
        }
        assert forall|k: K| #[trigger] map_of(entries).contains_key(k) implies exists|i: int|
            0 <= i < entries.len() && (#[trigger] entries[i]).0 == k by {
            if k != last.0 {
                assert(map_of(front).contains_key(k));
                let i = choose|i: int| 0 <= i < front.len() && (#[trigger] front[i]).0 == k;
                assert(entries[i] == front[i]);
            } else {
                assert(entries[entries.len() - 1].0 == k);
            }
        }
    }
}

/// Where a key stands several times, what stands with it last counts; a key that stands nowhere has
/// nothing.
pub proof fn the_last_entry_for_a_key_counts<K, V>(s: Seq<(K, V)>, i: int, absent: K)
    requires
        0 <= i < s.len(),
        forall|j: int| i < j < s.len() ==> (#[trigger] s[j]).0 != s[i].0,
        forall|j: int| 0 <= j < s.len() ==> (#[trigger] s[j]).0 != absent,
    ensures
        map_of(s).contains_key(s[i].0),
        map_of(s)[s[i].0] == s[i].1,
        !map_of(s).contains_key(absent),
    decreases s.len(),
{
    let front = s.drop_last();
    nothing_for_an_absent_key(s, absent);
    if i < front.len() {
        assert(s[s.len() - 1].0 != s[i].0);
        assert(front[i] == s[i]);
        assert forall|j: int| i < j < front.len() implies (#[trigger] front[j]).0 != front[i].0 by {
            assert(front[j] == s[j]);
        }
        assert forall|j: int| 0 <= j < front.len() implies (#[trigger] front[j]).0 != absent by {
            assert(front[j] == s[j]);
        }
        the_last_entry_for_a_key_counts(front, i, absent);
    }
}

proof fn nothing_for_an_absent_key<K, V>(s: Seq<(K, V)>, absent: K)
    requires
        forall|j: int| 0 <= j < s.len() ==> (#[trigger] s[j]).0 != absent,
    ensures
        !map_of(s).contains_key(absent),
    decreases s.len(),
{
    if s.len() > 0 {
        let front = s.drop_last();
        assert forall|j: int| 0 <= j < front.len() implies (#[trigger] front[j]).0 != absent by {
            assert(front[j] == s[j]);
        }
        nothing_for_an_absent_key(front, absent);
        assert(s[s.len() - 1].0 != absent);
    }
}

/// A list of entries maps finitely many keys.
pub proof fn map_of_is_finite<K, V>(entries: Seq<(K, V)>)
    ensures
        map_of(entries).dom().finite(),
    decreases entries.len(),
{
    if entries.len() > 0 {
        map_of_is_finite(entries.drop_last());
    }
}

/// An ascending list maps as many keys as it has entries.
pub proof fn map_of_len<K: Key, V>(entries: Seq<(K, V)>)
    requires
        ascending(entries),
    ensures
        map_of(entries).dom().finite(),
        map_of(entries).dom().len() == entries.len(),
    decreases entries.len(),
{
    map_of_is_finite(entries);
    if entries.len() > 0 {
        let front = entries.drop_last();
        assert forall|i: int, j: int| 0 <= i < j < front.len() implies (
        #[trigger] front[i]).0.rank() < (#[trigger] front[j]).0.rank() by {
            assert(front[i] == entries[i] && front[j] == entries[j]);
        }
        map_of_len(front);
        map_of_ascending(front);
        let k = entries.last().0;
        if map_of(front).contains_key(k) {
            let i = choose|i: int| 0 <= i < front.len() && (#[trigger] front[i]).0 == k;
            assert(entries[i] == front[i]);
            assert(entries[i].0.rank() < entries[entries.len() - 1].0.rank());
        }
        assert(map_of(entries).dom() =~= map_of(front).dom().insert(k));
    }
}

/// Two ascending lists that map the same are the same list: the listing order of a map is fixed.
pub proof fn listing_is_canonical<K: Key, V>(a: Seq<(K, V)>, b: Seq<(K, V)>)
    requires
        ascending(a),
        ascending(b),
        map_of(a) == map_of(b),
    ensures
        a == b,
    decreases a.len(),
{
    map_of_ascending(a);
    map_of_ascending(b);
    map_of_len(a);
    map_of_len(b);
    assert(a.len() == b.len());
    if a.len() > 0 {
        let n = a.len() as int;
        // The last keys agree: each is held by the other list, and is the greatest there.
        assert(map_of(b).contains_key(a[n - 1].0));
        let j = choose|j: int| 0 <= j < n && (#[trigger] b[j]).0 == a[n - 1].0;
        assert(map_of(a).contains_key(b[n - 1].0));
        let i = choose|i: int| 0 <= i < n && (#[trigger] a[i]).0 == b[n - 1].0;
        if j < n - 1 {
            assert(b[j].0.rank() < b[n - 1].0.rank());
            if i < n - 1 {
                assert(a[i].0.rank() < a[n - 1].0.rank());
            }
        }
        assert(a[n - 1].0 == b[n - 1].0);
        assert(a[n - 1].1 == map_of(a)[a[n - 1].0]);
        assert(b[n - 1].1 == map_of(b)[b[n - 1].0]);
        let fa = a.drop_last();
        let fb = b.drop_last();
        assert forall|i: int, j: int| 0 <= i < j < fa.len() implies (
        #[trigger] fa[i]).0.rank() < (#[trigger] fa[j]).0.rank() by {
            assert(fa[i] == a[i] && fa[j] == a[j]);
        }
        assert forall|i: int, j: int| 0 <= i < j < fb.len() implies (
        #[trigger] fb[i]).0.rank() < (#[trigger] fb[j]).0.rank() by {
            assert(fb[i] == b[i] && fb[j] == b[j]);
        }
        map_of_ascending(fa);
        map_of_ascending(fb);
        let k = a[n - 1].0;
        if map_of(fa).contains_key(k) {
            let i = choose|i: int| 0 <= i < fa.len() && (#[trigger] fa[i]).0 == k;
            assert(a[i] == fa[i]);
            assert(a[i].0.rank() < a[n - 1].0.rank());
        }
        if map_of(fb).contains_key(k) {
            let i = choose|i: int| 0 <= i < fb.len() && (#[trigger] fb[i]).0 == k;
            assert(b[i] == fb[i]);
            assert(b[i].0.rank() < b[n - 1].0.rank());
        }
        assert(map_of(fa) =~= map_of(a).remove(k));
        assert(map_of(fb) =~= map_of(b).remove(k));
        listing_is_canonical(fa, fb);
        assert(a =~= fa.push(a[n - 1]));
        assert(b =~= fb.push(b[n - 1]));
    }
}

/// The entries of a map by ascending key.
pub open spec fn ordered<K: Key, V>(m: Map<K, V>) -> Seq<(K, V)> {
    choose|s: Seq<(K, V)>| ascending(s) && #[trigger] map_of(s) == m
}

/// A list with one more entry, put where its key belongs.
proof fn listing_with<K: Key, V>(s: Seq<(K, V)>, k: K, v: V) -> (r: Seq<(K, V)>)
    requires
        ascending(s),
        !map_of(s).contains_key(k),
    ensures
        ascending(r),
        map_of(r) == map_of(s).insert(k, v),
        forall|bound: int|
            (forall|i: int| 0 <= i < s.len() ==> (#[trigger] s[i]).0.rank() < bound) && k.rank()
                < bound ==> #[trigger] all_below(r, bound),
    decreases s.len(),
{
    if s.len() == 0 {
        let r = Seq::<(K, V)>::empty().push((k, v));
        assert(r.drop_last() =~= s);
        r
    } else {
        let front = s.drop_last();
        let last = s.last();
        let n = s.len() - 1;
        assert(forall|i: int| 0 <= i < n ==> #[trigger] front[i] == s[i]);
        map_of_ascending(s);
        assert(s[n] == last);
        assert(map_of(s).contains_key(s[n].0));
        if last.0.rank() < k.rank() {
            let r = s.push((k, v));
            assert(r.drop_last() =~= s);
            assert forall|i: int, j: int| 0 <= i < j < r.len() implies (#[trigger] r[i]).0.rank() < (
            #[trigger] r[j]).0.rank() by {
                assert(r[i] == s[i]);
                if i < n {
                    assert(s[i].0.rank() < s[n].0.rank());
                }
            }
            r
        } else {
            if last.0.rank() == k.rank() {
                K::rank_is_injective(last.0, k);
            }
            let before = listing_with(front, k, v);
            assert forall|i: int| 0 <= i < front.len() implies (#[trigger] front[i]).0.rank()
                < last.0.rank() by {
                assert(s[i].0.rank() < s[n].0.rank());
            }
            assert(all_below(before, last.0.rank()));
            let r = before.push(last);
            assert(r.drop_last() =~= before);
            assert(map_of(r) =~= map_of(s).insert(k, v));
            assert forall|bound: int|
                (forall|i: int| 0 <= i < s.len() ==> (#[trigger] s[i]).0.rank() < bound)
                    && k.rank() < bound implies #[trigger] all_below(r, bound) by {
                assert(s[n].0.rank() < bound);
                assert forall|i: int| 0 <= i < front.len() implies (#[trigger] front[i]).0.rank()
                    < bound by {
                    assert(s[i].0.rank() < bound);
                }
                assert(all_below(before, bound));
            }
            r
        }
    }
}

spec fn all_below<K: Key, V>(s: Seq<(K, V)>, bound: int) -> bool {
    forall|i: int| 0 <= i < s.len() ==> (#[trigger] s[i]).0.rank() < bound
}

/// The entries of a finite map can be listed by ascending key.
pub proof fn ordered_lists_the_map<K: Key, V>(m: Map<K, V>)
    requires
        m.dom().finite(),
    ensures
        ascending(ordered(m)),
        map_of(ordered(m)) == m,
    decreases m.dom().len(),
{
    if m.dom().len() == 0 {
        let s = Seq::<(K, V)>::empty();
        assert(m.dom() =~= Set::empty());
        assert(m =~= map_of(s));
        assert(ascending(s) && map_of(s) == m);
    } else {
        let k = m.dom().choose();
        let rest = m.remove(k);
        assert(rest.dom() =~= m.dom().remove(k));
        ordered_lists_the_map(rest);
        let s = listing_with(ordered(rest), k, m[k]);
        assert(map_of(s) =~= m);
        assert(ascending(s) && map_of(s) == m);
    }
}

/// An ascending list is the listing of what it maps.
pub proof fn ordered_is_the_list<K: Key, V>(s: Seq<(K, V)>)
    requires
        ascending(s),
    ensures
        ordered(map_of(s)) == s,
{
    assert(ascending(s) && map_of(s) == map_of(s));
    listing_is_canonical(ordered(map_of(s)), s);
}

/// A map that lists its entries by ascending key.
#[derive(Debug, PartialEq, Eq)]
pub struct SortedMap<K: Key, V> {
    entries: Vec<(K, V)>,
}

impl<K: Key, V> SortedMap<K, V> {
    #[verifier::type_invariant]
    spec fn is_ascending(self) -> bool {
        ascending(self.entries@)
    }

    /// The entries in listing order.
    pub closed spec fn order(&self) -> Seq<(K, V)> {
        self.entries@
    }

    /// What the map holds.
    pub open spec fn view(&self) -> Map<K, V> {
        map_of(self.order())
    }

    /// A map that holds nothing.
    pub fn new() -> (r: Self)
        ensures
            r@ == Map::<K, V>::empty(),
            r.order() == Seq::<(K, V)>::empty(),
    {
        let r = SortedMap { entries: Vec::new() };
        r
    }

    /// The entries in listing order.
    pub fn entries(&self) -> (r: &Vec<(K, V)>)
        ensures
            r@ == self.order(),
            ascending(r@),
            self@ == map_of(r@),
    {
        proof {
            use_type_invariant(self);
        }
        &self.entries
    }

    /// Where `key` stands, or where it would have to be put.
    fn find(&self, key: &K) -> (r: (usize, bool))
        ensures
            r.0 <= self.order().len(),
            forall|i: int|
                0 <= i < r.0 ==> (#[trigger] self.order()[i]).0.rank() < key.rank(),
            forall|i: int|
                r.0 <= i < self.order().len() ==> (#[trigger] self.order()[i]).0.rank()
                    >= key.rank(),
            r.1 == (r.0 < self.order().len() && self.order()[r.0 as int].0 == *key),
            r.1 == self@.contains_key(*key),
            r.1 ==> self@[*key] == self.order()[r.0 as int].1,
    {
        proof {
            use_type_invariant(self);
            map_of_ascending(self.entries@);
        }
        let mut i: usize = 0;
        while i < self.entries.len() && self.entries[i].0.before(key)
            invariant
                i <= self.entries@.len(),
                forall|j: int|
                    0 <= j < i ==> (#[trigger] self.entries@[j]).0.rank() < key.rank(),
            decreases self.entries@.len() - i,
        {
            i += 1;
        }
        let found = i < self.entries.len() && !key.before(&self.entries[i].0);
        proof {
            assert forall|j: int| i <= j < self.entries@.len() implies (
            #[trigger] self.entries@[j]).0.rank() >= key.rank() by {
                if i < j {
                    assert(self.entries@[i as int].0.rank() < self.entries@[j].0.rank());
                }
            }
            if found {
                K::rank_is_injective(self.entries@[i as int].0, *key);
            }
        }
        (i, found)
    }

    /// The value at `key`, where there is one.
    pub fn get(&self, key: &K) -> (r: Option<&V>)
        ensures
            r is Some == self@.contains_key(*key),
            r is Some ==> *r->Some_0 == self@[*key],
    {
        let (i, found) = self.find(key);
        if found {
            Some(&self.entries[i].1)
        } else {
            None
        }
    }

    /// Whether `key` is held.
    pub fn contains_key(&self, key: &K) -> (r: bool)
        ensures
            r == self@.contains_key(*key),
    {
        let (_, found) = self.find(key);
        found
    }

    /// Puts `value` at `key`, in place of what was there.
    pub fn insert(&mut self, key: K, value: V)
        ensures
            final(self)@ == old(self)@.insert(key, value),
    {
        proof {
            use_type_invariant(&*self);
            map_of_ascending(self.entries@);
        }
        let ghost before = self.entries@;
        let (i, found) = self.find(&key);
        let mut entries: Vec<(K, V)> = Vec::new();
        self.swap_entries(&mut entries);
        if found {
            let (_, _) = entries.remove(i);
        }
        let ghost without = entries@;
        entries.insert(i, (key, value));
        proof {
            let after = entries@;
            assert forall|a: int, b: int| 0 <= a < b < after.len() implies (
            #[trigger] after[a]).0.rank() < (#[trigger] after[b]).0.rank() by {
                let shift: int = if found { 0 } else { -1 };
                assert(forall|x: int| 0 <= x < i ==> #[trigger] after[x] == before[x]);
                assert(after[i as int] == (key, value));
                assert(forall|x: int|
                    i < x < after.len() ==> #[trigger] after[x] == before[x + shift]);
                if b > i {
                    let bb = b + shift;
                    assert(before[bb].0.rank() >= key.rank());
                    if !found {
                        if before[bb].0.rank() == key.rank() {
                            K::rank_is_injective(before[bb].0, key);
                            if i < bb {
                                assert(before[i as int].0.rank() < before[bb].0.rank());
                            }
                        }
                    } else {
                        assert(before[i as int].0.rank() < before[bb].0.rank());
                    }
                }
            }
            map_of_ascending(after);
            let want = map_of(before).insert(key, value);
            assert forall|k: K| #[trigger] map_of(after).contains_key(k) == want.contains_key(k)
                && (want.contains_key(k) ==> map_of(after)[k] == want[k]) by {
                let shift: int = if found { 0 } else { -1 };
                assert(forall|x: int| 0 <= x < i ==> #[trigger] after[x] == before[x]);
                assert(after[i as int] == (key, value));
                assert(forall|x: int|
                    i < x < after.len() ==> #[trigger] after[x] == before[x + shift]);
                if map_of(after).contains_key(k) {
                    let x = choose|x: int| 0 <= x < after.len() && (#[trigger] after[x]).0 == k;
                    if x < i {
                        assert(after[x] == before[x]);
                    } else if x > i {
                        assert(after[x] == before[x + shift]);
                    }
                }
                if want.contains_key(k) && k != key {
                    let x = choose|x: int| 0 <= x < before.len() && (#[trigger] before[x]).0 == k;
                    if x < i {
                        assert(after[x] == before[x]);
                    } else {
                        assert(x != i || !found);
                        assert(after[x - shift] == before[x]);
                    }
                }
            }
            assert(map_of(after) =~= want);
        }
        *self = SortedMap { entries };
    }

    /// Takes the entries out, leaving `other` in their place.
    fn swap_entries(&mut self, other: &mut Vec<(K, V)>)
        requires
            old(other)@.len() == 0,
        ensures
            final(other)@ == old(self).order(),
            final(self)@ == Map::<K, V>::empty(),
    {
        let mut taken: Vec<(K, V)> = Vec::new();
        std::mem::swap(&mut taken, other);
        std::mem::swap(&mut self.entries, &mut taken);
        std::mem::swap(&mut taken, other);
    }

    /// Takes `key` out and hands back what was there.
    pub fn remove(&mut self, key: &K) -> (r: Option<V>)
        ensures
            final(self)@ == old(self)@.remove(*key),
            r is Some == old(self)@.contains_key(*key),
            r is Some ==> r->Some_0 == old(self)@[*key],
    {
        proof {
            use_type_invariant(&*self);
            map_of_ascending(self.entries@);
        }
        let ghost before = self.entries@;
        let (i, found) = self.find(key);
        if !found {
            assert(self@.remove(*key) =~= self@);
            return None;
        }
        let mut entries: Vec<(K, V)> = Vec::new();
        self.swap_entries(&mut entries);
        let (_, value) = entries.remove(i);
        proof {
            let after = entries@;
            assert(forall|x: int| 0 <= x < i ==> #[trigger] after[x] == before[x]);
            assert(forall|x: int| i <= x < after.len() ==> #[trigger] after[x] == before[x + 1]);
            map_of_ascending(after);
            let want = map_of(before).remove(*key);
            assert forall|k: K| #[trigger] map_of(after).contains_key(k) == want.contains_key(k)
                && (want.contains_key(k) ==> map_of(after)[k] == want[k]) by {
                if map_of(after).contains_key(k) {
                    let x = choose|x: int| 0 <= x < after.len() && (#[trigger] after[x]).0 == k;
                    let y = if x < i { x } else { x + 1 };
                    assert(before[y] == after[x]);
                    assert(before[y].0 != *key) by {
                        if y < i {
                            assert(before[y].0.rank() < before[i as int].0.rank());
                        } else {
                            assert(before[i as int].0.rank() < before[y].0.rank());
                        }
                    }
                }
                if want.contains_key(k) {
                    let y = choose|y: int| 0 <= y < before.len() && (#[trigger] before[y]).0 == k;
                    let x = if y < i { y } else { y - 1 };
                    assert(after[x] == before[y]);
                }
            }
            assert(map_of(after) =~= want);
        }
        *self = SortedMap { entries };
        Some(value)
    }
}

} // verus!
