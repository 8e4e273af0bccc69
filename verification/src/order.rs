//! Ordered maps: association vectors kept strictly ascending by key.
use vstd::prelude::*;
use crate::text::chars_of;

verus! {

/// A strict total order on the mathematical value of a key.
pub trait KeyOrder: Sized {
    /// Whether this key comes before the other.
    spec fn before(self, other: Self) -> bool;

    /// No key comes before itself.
    proof fn irreflexive(a: Self)
        ensures
            !a.before(a),
    ;

    /// The order carries over a middle key.
    proof fn transitive(a: Self, b: Self, c: Self)
        requires
            a.before(b),
            b.before(c),
        ensures
            a.before(c),
    ;

    /// Two different keys are ordered one way or the other.
    proof fn total(a: Self, b: Self)
        ensures
            a.before(b) || a == b || b.before(a),
    ;
}

/// How a key stands to another one.
pub enum Placement {
    Before,
    Same,
    After,
}

/// A key that can be placed against another one.
pub trait Key: View where Self::V: KeyOrder {
    /// How this key stands to the other.
    fn place(&self, other: &Self) -> (p: Placement)
        ensures
            p is Before <==> self@.before(other@),
            p is Same <==> self@ == other@,
            p is After <==> other@.before(self@),
    ;
}

/// The order of texts by their characters, a proper prefix first.
pub open spec fn text_before(a: Seq<char>, b: Seq<char>) -> bool
    decreases a.len(),
{
    if b.len() == 0 {
        false
    } else if a.len() == 0 {
        true
    } else if a[0] != b[0] {
        a[0] < b[0]
    } else {
        text_before(a.drop_first(), b.drop_first())
    }
}

proof fn lemma_text_irreflexive(a: Seq<char>)
    ensures
        !text_before(a, a),
    decreases a.len(),
{
    if a.len() > 0 {
        lemma_text_irreflexive(a.drop_first());
    }
}

proof fn lemma_text_transitive(a: Seq<char>, b: Seq<char>, c: Seq<char>)
    requires
        text_before(a, b),
        text_before(b, c),
    ensures
        text_before(a, c),
    decreases a.len(),
{
    if a.len() > 0 && a[0] == b[0] && b[0] == c[0] {
        lemma_text_transitive(a.drop_first(), b.drop_first(), c.drop_first());
    }
}

proof fn lemma_text_total(a: Seq<char>, b: Seq<char>)
    ensures
        text_before(a, b) || a == b || text_before(b, a),
    decreases a.len(),
{
    if a.len() == 0 || b.len() == 0 {
        assert(a.len() == 0 && b.len() == 0 ==> a =~= b);
    } else if a[0] == b[0] {
        lemma_text_total(a.drop_first(), b.drop_first());
        if a.drop_first() == b.drop_first() {
            assert(a =~= seq![a[0]] + a.drop_first());
            assert(b =~= seq![b[0]] + b.drop_first());
        }
    }
}

impl KeyOrder for Seq<char> {
    open spec fn before(self, other: Self) -> bool {
        text_before(self, other)
    }

    proof fn irreflexive(a: Self) {
        lemma_text_irreflexive(a);
    }

    proof fn transitive(a: Self, b: Self, c: Self) {
        lemma_text_transitive(a, b, c);
    }

    proof fn total(a: Self, b: Self) {
        lemma_text_total(a, b);
    }
}

/// Places one text against another.
pub fn place_text(a: &str, b: &str) -> (p: Placement)
    ensures
        p is Before <==> text_before(a@, b@),
        p is Same <==> a@ == b@,
        p is After <==> text_before(b@, a@),
{
    let x = chars_of(a);
    let y = chars_of(b);
    let mut i: usize = 0;
    proof {
        lemma_text_irreflexive(a@);
        assert(x@.skip(0) =~= x@);
        assert(y@.skip(0) =~= y@);
        if text_before(a@, b@) && text_before(b@, a@) {
            lemma_text_transitive(a@, b@, a@);
        }
    }
    while i < x.len() && i < y.len() && x[i] == y[i]
        invariant
            i <= x.len(),
            i <= y.len(),
            x@ == a@,
            y@ == b@,
            x@.take(i as int) == y@.take(i as int),
            text_before(a@, b@) == text_before(x@.skip(i as int), y@.skip(i as int)),
            text_before(b@, a@) == text_before(y@.skip(i as int), x@.skip(i as int)),
        decreases x.len() - i,
    {
        assert(x@.skip(i as int).drop_first() =~= x@.skip(i + 1));
        assert(y@.skip(i as int).drop_first() =~= y@.skip(i + 1));
        assert(x@.take(i + 1) =~= x@.take(i as int).push(x@[i as int]));
        assert(y@.take(i + 1) =~= y@.take(i as int).push(y@[i as int]));
        i += 1;
    }
    if i == x.len() {
        if i == y.len() {
            assert(x@ =~= x@.take(i as int));
            assert(y@ =~= y@.take(i as int));
            Placement::Same
        } else {
            Placement::Before
        }
    } else if i == y.len() {
        Placement::After
    } else if x[i] < y[i] {
        Placement::Before
    } else {
        Placement::After
    }
}

impl Key for String {
    fn place(&self, other: &Self) -> (p: Placement) {
        place_text(self.as_str(), other.as_str())
    }
}

/// A key of three texts.
pub struct Triple {
    pub first: String,
    pub second: String,
    pub third: String,
}

impl View for Triple {
    type V = (Seq<char>, Seq<char>, Seq<char>);

    open spec fn view(&self) -> (Seq<char>, Seq<char>, Seq<char>) {
        (self.first@, self.second@, self.third@)
    }
}

impl KeyOrder for (Seq<char>, Seq<char>, Seq<char>) {
    open spec fn before(self, other: Self) -> bool {
        ||| text_before(self.0, other.0)
        ||| self.0 == other.0 && text_before(self.1, other.1)
        ||| self.0 == other.0 && self.1 == other.1 && text_before(self.2, other.2)
    }

    proof fn irreflexive(a: Self) {
        lemma_text_irreflexive(a.0);
        lemma_text_irreflexive(a.1);
        lemma_text_irreflexive(a.2);
    }

    proof fn transitive(a: Self, b: Self, c: Self) {
        if text_before(a.0, b.0) && text_before(b.0, c.0) {
            lemma_text_transitive(a.0, b.0, c.0);
        }
        if text_before(a.1, b.1) && text_before(b.1, c.1) {
            lemma_text_transitive(a.1, b.1, c.1);
        }
        if text_before(a.2, b.2) && text_before(b.2, c.2) {
            lemma_text_transitive(a.2, b.2, c.2);
        }
    }

    proof fn total(a: Self, b: Self) {
        lemma_text_total(a.0, b.0);
        lemma_text_total(a.1, b.1);
        lemma_text_total(a.2, b.2);
    }
}

impl Key for Triple {
    fn place(&self, other: &Self) -> (p: Placement) {
        proof {
            let a = self@;
            let b = other@;
            KeyOrder::irreflexive(a);
            KeyOrder::irreflexive(b);
            if a.before(b) && b.before(a) {
                KeyOrder::transitive(a, b, a);
            }
        }
        match place_text(self.first.as_str(), other.first.as_str()) {
            Placement::Before => Placement::Before,
            Placement::After => Placement::After,
            Placement::Same => match place_text(self.second.as_str(), other.second.as_str()) {
                Placement::Before => Placement::Before,
                Placement::After => Placement::After,
                Placement::Same => place_text(self.third.as_str(), other.third.as_str()),
            },
        }
    }
}

impl KeyOrder for u64 {
    open spec fn before(self, other: Self) -> bool {
        self < other
    }

    proof fn irreflexive(a: Self) {
    }

    proof fn transitive(a: Self, b: Self, c: Self) {
    }

    proof fn total(a: Self, b: Self) {
    }
}

impl Key for u64 {
    fn place(&self, other: &Self) -> (p: Placement) {
        if *self < *other {
            Placement::Before
        } else if *self == *other {
            Placement::Same
        } else {
            Placement::After
        }
    }
}

// ---------------------------------------------------------------------------
// Listings
// ---------------------------------------------------------------------------

/// Keys strictly ascending.
pub open spec fn ascending<K: KeyOrder, V>(s: Seq<(K, V)>) -> bool {
    forall|i: int, j: int|
        0 <= i < j < s.len() ==> (#[trigger] s[i]).0.before((#[trigger] s[j]).0)
}

/// Whether the entries are those of the map, each once, in ascending order of their keys.
pub open spec fn lists<K: KeyOrder, V>(s: Seq<(K, V)>, m: Map<K, V>) -> bool {
    &&& ascending(s)
    &&& forall|i: int| 0 <= i < s.len() ==> m.contains_pair((#[trigger] s[i]).0, s[i].1)
    &&& forall|k: K| #[trigger]
        m.dom().contains(k) ==> exists|i: int| 0 <= i < s.len() && (#[trigger] s[i]).0 == k
}

/// The entries of a finite map in ascending order of their keys.
pub open spec fn sorted_entries<K: KeyOrder, V>(m: Map<K, V>) -> Seq<(K, V)> {
    choose|s: Seq<(K, V)>| lists(s, m)
}

proof fn lemma_listing_step<K: KeyOrder, V>(
    s: Seq<(K, V)>,
    t: Seq<(K, V)>,
    m: Map<K, V>,
    i: int,
)
    requires
        lists(s, m),
        lists(t, m),
        0 <= i < s.len(),
        i <= t.len(),
        forall|j: int| 0 <= j < i ==> #[trigger] s[j] == t[j],
    ensures
        i < t.len(),
        s[i] == t[i],
{
    assert(m.dom().contains(s[i].0));
    let k = choose|k: int| 0 <= k < t.len() && (#[trigger] t[k]).0 == s[i].0;
    if k < i {
        assert(s[k].0.before(s[i].0));
        KeyOrder::irreflexive(s[i].0);
    }
    if k > i {
        assert(t[i].0.before(t[k].0));
        assert(m.dom().contains(t[i].0));
        let l = choose|l: int| 0 <= l < s.len() && (#[trigger] s[l]).0 == t[i].0;
        if l < i {
            assert(t[l].0.before(t[i].0));
            KeyOrder::irreflexive(t[i].0);
        } else if l == i {
            KeyOrder::irreflexive(t[i].0);
        } else {
            assert(s[i].0.before(s[l].0));
            KeyOrder::transitive(s[i].0, t[i].0, t[k].0);
            KeyOrder::irreflexive(s[i].0);
        }
    }
    assert(m.contains_pair(s[i].0, s[i].1));
    assert(m.contains_pair(t[i].0, t[i].1));
}

proof fn lemma_listing_prefix<K: KeyOrder, V>(
    s: Seq<(K, V)>,
    t: Seq<(K, V)>,
    m: Map<K, V>,
    n: int,
)
    requires
        lists(s, m),
        lists(t, m),
        0 <= n <= s.len(),
    ensures
        n <= t.len(),
        forall|j: int| 0 <= j < n ==> #[trigger] s[j] == t[j],
    decreases n,
{
    if n > 0 {
        lemma_listing_prefix(s, t, m, n - 1);
        lemma_listing_step(s, t, m, n - 1);
    }
}

/// A map has one listing only.
pub proof fn listing_is_unique<K: KeyOrder, V>(s: Seq<(K, V)>, t: Seq<(K, V)>, m: Map<K, V>)
    requires
        lists(s, m),
        lists(t, m),
    ensures
        s == t,
{
    lemma_listing_prefix(s, t, m, s.len() as int);
    lemma_listing_prefix(t, s, m, t.len() as int);
    assert(s =~= t);
}

/// A listing of a map is its sorted entries.
pub proof fn listing_is_sorted_entries<K: KeyOrder, V>(s: Seq<(K, V)>, m: Map<K, V>)
    requires
        lists(s, m),
    ensures
        s == sorted_entries(m),
        lists(sorted_entries(m), m),
{
    listing_is_unique(s, sorted_entries(m), m);
}

/// Entries with one more, put where its key belongs.
spec fn with_entry<K: KeyOrder, V>(s: Seq<(K, V)>, k: K, v: V) -> Seq<(K, V)>
    decreases s.len(),
{
    if s.len() == 0 || k.before(s[0].0) {
        seq![(k, v)] + s
    } else {
        seq![s[0]] + with_entry(s.drop_first(), k, v)
    }
}

proof fn lemma_with_entry<K: KeyOrder, V>(s: Seq<(K, V)>, k: K, v: V)
    requires
        ascending(s),
        forall|i: int| 0 <= i < s.len() ==> (#[trigger] s[i]).0 != k,
    ensures
        ascending(with_entry(s, k, v)),
        forall|e: (K, V)| #[trigger]
            with_entry(s, k, v).contains(e) <==> s.contains(e) || e == (k, v),
    decreases s.len(),
{
    let r = with_entry(s, k, v);
    if s.len() == 0 || k.before(s[0].0) {
        assert forall|i: int, j: int| 0 <= i < j < r.len() implies (#[trigger] r[i]).0.before(
            (#[trigger] r[j]).0,
        ) by {
            if i == 0 {
                if j > 1 {
                    KeyOrder::transitive(k, s[0].0, s[j - 1].0);
                }
            } else {
                assert(r[i] == s[i - 1] && r[j] == s[j - 1]);
            }
        }
        assert forall|e: (K, V)| #[trigger] r.contains(e) <==> s.contains(e) || e == (k, v) by {
            if s.contains(e) {
                let i = choose|i: int| 0 <= i < s.len() && s[i] == e;
                assert(r[i + 1] == e);
            }
            assert(r[0] == (k, v));
            if r.contains(e) && e != (k, v) {
                let i = choose|i: int| 0 <= i < r.len() && r[i] == e;
                assert(s[i - 1] == e);
            }
        }
    } else {
        let t = s.drop_first();
        assert forall|i: int| 0 <= i < t.len() implies (#[trigger] t[i]).0 != k by {
            assert(t[i] == s[i + 1]);
        }
        assert(ascending(t)) by {
            assert forall|i: int, j: int| 0 <= i < j < t.len() implies (#[trigger] t[i]).0.before(
                (#[trigger] t[j]).0,
            ) by {
                assert(t[i] == s[i + 1] && t[j] == s[j + 1]);
            }
        }
        lemma_with_entry(t, k, v);
        let u = with_entry(t, k, v);
        assert(r == seq![s[0]] + u);
        KeyOrder::total(k, s[0].0);
        assert forall|i: int, j: int| 0 <= i < j < r.len() implies (#[trigger] r[i]).0.before(
            (#[trigger] r[j]).0,
        ) by {
            if i == 0 {
                let e = r[j];
                assert(e == u[j - 1]);
                assert(u.contains(e));
                if e != (k, v) {
                    let o = choose|o: int| 0 <= o < t.len() && t[o] == e;
                    assert(s[o + 1] == e);
                }
            } else {
                assert(r[i] == u[i - 1] && r[j] == u[j - 1]);
            }
        }
        assert forall|e: (K, V)| #[trigger] r.contains(e) <==> s.contains(e) || e == (k, v) by {
            if r.contains(e) {
                let i = choose|i: int| 0 <= i < r.len() && r[i] == e;
                if i > 0 {
                    assert(u[i - 1] == e);
                    assert(u.contains(e));
                    if e != (k, v) {
                        let o = choose|o: int| 0 <= o < t.len() && t[o] == e;
                        assert(s[o + 1] == e);
                    }
                } else {
                    assert(s[0] == e);
                }
            }
            if s.contains(e) {
                let i = choose|i: int| 0 <= i < s.len() && s[i] == e;
                if i == 0 {
                    assert(r[0] == e);
                } else {
                    assert(t[i - 1] == e);
                    assert(u.contains(e));
                    let o = choose|o: int| 0 <= o < u.len() && u[o] == e;
                    assert(r[o + 1] == e);
                }
            }
            if e == (k, v) {
                assert(u.contains(e));
                let o = choose|o: int| 0 <= o < u.len() && u[o] == e;
                assert(r[o + 1] == e);
            }
        }
    }
}

/// Every finite map has a listing.
pub proof fn listing_exists<K: KeyOrder, V>(m: Map<K, V>)
    requires
        m.dom().finite(),
    ensures
        lists(sorted_entries(m), m),
    decreases m.dom().len(),
{
    if m.dom().len() == 0 {
        assert(m.dom() =~= Set::<K>::empty());
        assert(lists(Seq::<(K, V)>::empty(), m));
    } else {
        let k = m.dom().choose();
        let rest = m.remove(k);
        listing_exists(rest);
        let s = sorted_entries(rest);
        assert forall|i: int| 0 <= i < s.len() implies (#[trigger] s[i]).0 != k by {
            assert(rest.contains_pair(s[i].0, s[i].1));
        }
        lemma_with_entry(s, k, m[k]);
        let r = with_entry(s, k, m[k]);
        assert forall|i: int| 0 <= i < r.len() implies m.contains_pair(
            (#[trigger] r[i]).0,
            r[i].1,
        ) by {
            assert(r.contains(r[i]));
            if r[i] != (k, m[k]) {
                let o = choose|o: int| 0 <= o < s.len() && s[o] == r[i];
                assert(rest.contains_pair(s[o].0, s[o].1));
            }
        }
        assert forall|x: K| #[trigger] m.dom().contains(x) implies exists|i: int|
            0 <= i < r.len() && (#[trigger] r[i]).0 == x by {
            if x == k {
                assert(r.contains((k, m[k])));
                let i = choose|i: int| 0 <= i < r.len() && r[i] == (k, m[k]);
                assert(r[i].0 == x);
            } else {
                assert(rest.dom().contains(x));
                let o = choose|o: int| 0 <= o < s.len() && (#[trigger] s[o]).0 == x;
                assert(r.contains(s[o]));
                let i = choose|i: int| 0 <= i < r.len() && r[i] == s[o];
                assert(r[i].0 == x);
            }
        }
        assert(lists(r, m));
    }
}

// ---------------------------------------------------------------------------
// The map
// ---------------------------------------------------------------------------

/// A map kept as a vector of entries in ascending order of their keys.
pub struct OrderedMap<K, V> {
    pub entries: Vec<(K, V)>,
}

impl<K: Key, V: View> OrderedMap<K, V> where K::V: KeyOrder {
    /// The entries by their values.
    pub open spec fn items(&self) -> Seq<(K::V, V::V)> {
        self.entries@.map_values(|e: (K, V)| (e.0@, e.1@))
    }

    /// The invariant: keys strictly ascending.
    pub open spec fn wf(&self) -> bool {
        ascending(self.items())
    }

    /// Whether a key is among the entries.
    pub open spec fn has(&self, k: K::V) -> bool {
        exists|i: int| 0 <= i < self.items().len() && (#[trigger] self.items()[i]).0 == k
    }
}

impl<K: Key, V: View> View for OrderedMap<K, V> where K::V: KeyOrder {
    type V = Map<K::V, V::V>;

    open spec fn view(&self) -> Map<K::V, V::V> {
        Map::new(
            |k: K::V| self.has(k),
            |k: K::V|
                self.items()[choose|i: int|
                    0 <= i < self.items().len() && (#[trigger] self.items()[i]).0 == k].1,
        )
    }
}

impl<K: Key, V: View> OrderedMap<K, V> where K::V: KeyOrder {
    /// The entries list the map.
    pub proof fn lemma_lists(&self)
        requires
            self.wf(),
        ensures
            lists(self.items(), self@),
            self.items() == sorted_entries(self@),
            lists(sorted_entries(self@), self@),
    {
        let s = self.items();
        assert forall|i: int| 0 <= i < s.len() implies self@.contains_pair(
            (#[trigger] s[i]).0,
            s[i].1,
        ) by {
            assert(self.has(s[i].0));
            let k = choose|k: int| 0 <= k < s.len() && (#[trigger] s[k]).0 == s[i].0;
            KeyOrder::irreflexive(s[i].0);
            assert(k == i);
        }
        listing_is_sorted_entries(s, self@);
    }

    /// The empty map.
    pub fn new() -> (r: Self)
        ensures
            r.wf(),
            r@ == Map::<K::V, V::V>::empty(),
    {
        let r = OrderedMap { entries: Vec::new() };
        assert(r@ =~= Map::<K::V, V::V>::empty());
        r
    }

    /// Whether the map has no entries.
    pub fn is_empty(&self) -> (r: bool)
        requires
            self.wf(),
        ensures
            r == (self@ == Map::<K::V, V::V>::empty()),
    {
        proof {
            if self.entries@.len() == 0 {
                assert(self@ =~= Map::<K::V, V::V>::empty());
            } else {
                assert(self.has(self.items()[0].0));
                assert(self@.dom().contains(self.items()[0].0));
            }
        }
        self.entries.len() == 0
    }

    /// Where the key is, or where it belongs.
    fn seek(&self, key: &K) -> (r: (bool, usize))
        requires
            self.wf(),
        ensures
            r.1 <= self.entries.len(),
            r.0 == self@.dom().contains(key@),
            r.0 ==> r.1 < self.entries.len() && self.items()[r.1 as int].0 == key@
                && self.items()[r.1 as int].1 == self@[key@],
            forall|i: int| 0 <= i < r.1 ==> (#[trigger] self.items()[i]).0.before(key@),
            forall|i: int|
                r.1 <= i < self.entries.len() && !(r.0 && i == r.1) ==> key@.before(
                    (#[trigger] self.items()[i]).0,
                ),
    {
        let mut low: usize = 0;
        let mut high: usize = self.entries.len();
        while low < high
            invariant
                self.wf(),
                low <= high <= self.entries.len(),
                forall|i: int| 0 <= i < low ==> (#[trigger] self.items()[i]).0.before(key@),
                forall|i: int|
                    high <= i < self.entries.len() ==> key@.before((#[trigger] self.items()[i]).0),
            decreases high - low,
        {
            let mid: usize = low + (high - low) / 2;
            let ghost here = self.items()[mid as int].0;
            assert(here == self.entries@[mid as int].0@);
            match key.place(&self.entries[mid].0) {
                Placement::Same => {
                    assert forall|i: int| 0 <= i < mid implies (#[trigger] self.items()[i]).0.before(
                        key@,
                    ) by {}
                    assert(self.has(key@));
                    proof {
                        self.lemma_lists();
                        assert(self@.contains_pair(
                            self.items()[mid as int].0,
                            self.items()[mid as int].1,
                        ));
                    }
                    return (true, mid);
                },
                Placement::Before => {
                    assert forall|i: int| mid <= i < self.entries.len() implies key@.before(
                        (#[trigger] self.items()[i]).0,
                    ) by {
                        if i > mid {
                            KeyOrder::transitive(key@, here, self.items()[i].0);
                        }
                    }
                    high = mid;
                },
                Placement::After => {
                    assert forall|i: int| 0 <= i <= mid implies (
                    #[trigger] self.items()[i]).0.before(key@) by {
                        if i < mid {
                            KeyOrder::transitive(self.items()[i].0, here, key@);
                        }
                    }
                    low = mid + 1;
                },
            }
        }
        proof {
            if self.has(key@) {
                let i = choose|i: int|
                    0 <= i < self.items().len() && (#[trigger] self.items()[i]).0 == key@;
                KeyOrder::irreflexive(key@);
            }
        }
        (false, low)
    }

    /// Whether the key is in the map.
    pub fn contains(&self, key: &K) -> (r: bool)
        requires
            self.wf(),
        ensures
            r == self@.dom().contains(key@),
    {
        self.seek(key).0
    }

    /// The value at a key.
    pub fn get(&self, key: &K) -> (r: Option<&V>)
        requires
            self.wf(),
        ensures
            r is Some <==> self@.dom().contains(key@),
            r matches Some(v) ==> v@ == self@[key@],
    {
        let (found, at) = self.seek(key);
        if found {
            Some(&self.entries[at].1)
        } else {
            None
        }
    }

    /// Puts a value at a key, in place of the one that was there.
    pub fn insert(&mut self, key: K, value: V)
        requires
            old(self).wf(),
        ensures
            final(self).wf(),
            final(self)@ == old(self)@.insert(key@, value@),
    {
        let (found, at) = self.seek(&key);
        let ghost before = *self;
        let ghost items = self.items();
        let ghost k = key@;
        let ghost v = value@;
        proof {
            before.lemma_lists();
        }
        if found {
            self.entries.set(at, (key, value));
            assert(self.items() =~= items.update(at as int, (k, v)));
        } else {
            self.entries.insert(at, (key, value));
            assert(self.items() =~= items.insert(at as int, (k, v)));
        }
        proof {
            let now = self.items();
            let m = before@.insert(k, v);
            assert forall|i: int, j: int| 0 <= i < j < now.len() implies (
            #[trigger] now[i]).0.before((#[trigger] now[j]).0) by {
                if found {
                    assert(now[i].0 == items[i].0);
                    assert(now[j].0 == items[j].0);
                } else {
                    let p = at as int;
                    if i < p && j < p {
                        assert(now[i] == items[i] && now[j] == items[j]);
                    } else if i < p && j == p {
                        assert(now[i] == items[i]);
                    } else if i < p && j > p {
                        assert(now[i] == items[i] && now[j] == items[j - 1]);
                    } else if i == p {
                        assert(now[j] == items[j - 1]);
                    } else {
                        assert(now[i] == items[i - 1] && now[j] == items[j - 1]);
                    }
                }
            }
            assert forall|i: int| 0 <= i < now.len() implies m.contains_pair(
                (#[trigger] now[i]).0,
                now[i].1,
            ) by {
                KeyOrder::irreflexive(k);
                if i != at {
                    let o = if found || i < at { i } else { i - 1 };
                    assert(now[i] == items[o]);
                    assert(before@.contains_pair(items[o].0, items[o].1));
                    assert(items[o].0 != k);
                }
            }
            assert forall|x: K::V| #[trigger] m.dom().contains(x) implies exists|i: int|
                0 <= i < now.len() && (#[trigger] now[i]).0 == x by {
                if x == k {
                    assert(now[at as int].0 == x);
                } else {
                    let o = choose|o: int| 0 <= o < items.len() && (#[trigger] items[o]).0 == x;
                    let i = if found || o < at { o } else { o + 1 };
                    assert(now[i].0 == items[o].0);
                }
            }
            assert(lists(now, m));
            self.lemma_lists();
            lemma_listed_map_unique(now, self@, m);
        }
    }
}

impl<K: Key, V: View> OrderedMap<K, V> where K::V: KeyOrder {
    /// Takes the value at a key out.
    pub fn remove(&mut self, key: &K)
        requires
            old(self).wf(),
        ensures
            final(self).wf(),
            final(self)@ == old(self)@.remove(key@),
    {
        let (found, at) = self.seek(key);
        let ghost before = *self;
        let ghost items = self.items();
        let ghost k = key@;
        proof {
            before.lemma_lists();
        }
        if found {
            let _ = self.entries.remove(at);
            assert(self.items() =~= items.remove(at as int));
            proof {
                let now = self.items();
                let m = before@.remove(k);
                let p = at as int;
                assert forall|i: int, j: int| 0 <= i < j < now.len() implies (
                #[trigger] now[i]).0.before((#[trigger] now[j]).0) by {
                    let oi = if i < p { i } else { i + 1 };
                    let oj = if j < p { j } else { j + 1 };
                    assert(now[i] == items[oi] && now[j] == items[oj]);
                }
                assert forall|i: int| 0 <= i < now.len() implies m.contains_pair(
                    (#[trigger] now[i]).0,
                    now[i].1,
                ) by {
                    let o = if i < p { i } else { i + 1 };
                    assert(now[i] == items[o]);
                    assert(before@.contains_pair(items[o].0, items[o].1));
                    KeyOrder::irreflexive(k);
                    if o < p {
                        assert(items[o].0.before(items[p].0));
                    } else {
                        assert(items[p].0.before(items[o].0));
                    }
                }
                assert forall|x: K::V| #[trigger] m.dom().contains(x) implies exists|i: int|
                    0 <= i < now.len() && (#[trigger] now[i]).0 == x by {
                    let o = choose|o: int| 0 <= o < items.len() && (#[trigger] items[o]).0 == x;
                    let i = if o < p { o } else { o - 1 };
                    assert(now[i] == items[o]);
                }
                assert(lists(now, m));
                self.lemma_lists();
                lemma_listed_map_unique(now, self@, m);
            }
        } else {
            assert(before@.remove(k) =~= before@);
        }
    }
}

/// Entries list one map only.
proof fn lemma_listed_map_unique<K: KeyOrder, V>(s: Seq<(K, V)>, a: Map<K, V>, b: Map<K, V>)
    requires
        lists(s, a),
        lists(s, b),
    ensures
        a == b,
{
    assert forall|x: K| a.dom().contains(x) <==> b.dom().contains(x) by {
        if a.dom().contains(x) {
            let i = choose|i: int| 0 <= i < s.len() && (#[trigger] s[i]).0 == x;
            assert(b.contains_pair(s[i].0, s[i].1));
        }
        if b.dom().contains(x) {
            let i = choose|i: int| 0 <= i < s.len() && (#[trigger] s[i]).0 == x;
            assert(a.contains_pair(s[i].0, s[i].1));
        }
    }
    assert forall|x: K| a.dom().contains(x) implies #[trigger] a[x] == b[x] by {
        let i = choose|i: int| 0 <= i < s.len() && (#[trigger] s[i]).0 == x;
        assert(a.contains_pair(s[i].0, s[i].1));
        assert(b.contains_pair(s[i].0, s[i].1));
    }
    assert(a =~= b);
}

// ---------------------------------------------------------------------------
// Counting
// ---------------------------------------------------------------------------

/// A number of occurrences.
pub struct Count {
    pub n: usize,
}

impl View for Count {
    type V = nat;

    open spec fn view(&self) -> nat {
        self.n as nat
    }
}

/// How often a key occurs.
pub open spec fn occurrences<K>(s: Seq<K>, k: K) -> nat
    decreases s.len(),
{
    if s.len() == 0 {
        0
    } else {
        occurrences(s.drop_last(), k) + if s.last() == k { 1nat } else { 0nat }
    }
}

/// Every key that occurs, with how often it does.
pub open spec fn tally<K>(s: Seq<K>) -> Map<K, nat> {
    Map::new(|k: K| s.contains(k), |k: K| occurrences(s, k))
}

/// How many different keys occur.
pub open spec fn distinct<K>(s: Seq<K>) -> nat {
    s.to_set().len()
}

proof fn lemma_occurrences_bound<K>(s: Seq<K>, k: K)
    ensures
        occurrences(s, k) <= s.len(),
        s.contains(k) <==> occurrences(s, k) > 0,
    decreases s.len(),
{
    if s.len() > 0 {
        lemma_occurrences_bound(s.drop_last(), k);
        if s.contains(k) {
            let i = choose|i: int| 0 <= i < s.len() && s[i] == k;
            if i < s.len() - 1 {
                assert(s.drop_last()[i] == k);
            }
        }
        if s.drop_last().contains(k) {
            let i = choose|i: int| 0 <= i < s.drop_last().len() && s.drop_last()[i] == k;
            assert(s[i] == k);
        }
        if s.last() == k {
            assert(s[s.len() - 1] == k);
        }
    }
}

/// What does not occur, occurs no times.
pub proof fn occurrences_of_absent<K>(s: Seq<K>, k: K)
    ensures
        !s.contains(k) ==> occurrences(s, k) == 0,
{
    lemma_occurrences_bound(s, k);
}

/// One more occurrence counts one more.
pub proof fn tally_of_push<K>(s: Seq<K>, k: K)
    ensures
        tally(s.push(k)) == tally(s).insert(
            k,
            if tally(s).dom().contains(k) {
                tally(s)[k] + 1
            } else {
                1
            },
        ),
        occurrences(s, k) <= s.len(),
{
    let t = s.push(k);
    assert(t.drop_last() =~= s);
    lemma_occurrences_bound(s, k);
    assert forall|x: K| t.contains(x) <==> (s.contains(x) || x == k) by {
        if s.contains(x) {
            let i = choose|i: int| 0 <= i < s.len() && s[i] == x;
            assert(t[i] == x);
        }
        assert(t[s.len() as int] == k);
        if t.contains(x) && x != k {
            let i = choose|i: int| 0 <= i < t.len() && t[i] == x;
            assert(s[i] == x);
        }
    }
    assert(tally(t) =~= tally(s).insert(
        k,
        if tally(s).dom().contains(k) {
            tally(s)[k] + 1
        } else {
            1
        },
    ));
}

/// Counts one more occurrence of a key.
pub fn count_one<K: Key>(m: &mut OrderedMap<K, Count>, key: K, Ghost(s): Ghost<Seq<K::V>>) where
    K::V: KeyOrder,

    requires
        old(m).wf(),
        old(m)@ == tally(s),
        s.len() < usize::MAX,
    ensures
        final(m).wf(),
        final(m)@ == tally(s.push(key@)),
{
    proof {
        tally_of_push(s, key@);
    }
    let so_far: usize = match m.get(&key) {
        Some(c) => c.n,
        None => 0,
    };
    let ghost k = key@;
    m.insert(key, Count { n: so_far + 1 });
}

pub(crate) proof fn lemma_listing_length<K: KeyOrder, V>(s: Seq<(K, V)>, m: Map<K, V>)
    requires
        lists(s, m),
    ensures
        m.dom().finite(),
        s.len() == m.dom().len(),
{
    let keys = s.map_values(|e: (K, V)| e.0);
    assert(keys.no_duplicates()) by {
        assert forall|i: int, j: int| 0 <= i < j < keys.len() implies keys[i] != keys[j] by {
            assert(s[i].0.before(s[j].0));
            KeyOrder::irreflexive(s[i].0);
        }
    }
    keys.unique_seq_to_set();
    assert(keys.to_set() =~= m.dom()) by {
        assert forall|k: K| keys.to_set().contains(k) <==> m.dom().contains(k) by {
            if keys.contains(k) {
                let i = choose|i: int| 0 <= i < keys.len() && keys[i] == k;
                assert(m.contains_pair(s[i].0, s[i].1));
            }
            if m.dom().contains(k) {
                let i = choose|i: int| 0 <= i < s.len() && (#[trigger] s[i]).0 == k;
                assert(keys[i] == k);
            }
        }
    }
}

impl<K: Key> OrderedMap<K, Count> where K::V: KeyOrder {
    /// The number of different keys counted.
    pub fn distinct_keys(&self, Ghost(s): Ghost<Seq<K::V>>) -> (n: usize)
        requires
            self.wf(),
            self@ == tally(s),
        ensures
            n == distinct(s),
    {
        proof {
            self.lemma_lists();
            lemma_listing_length(self.items(), self@);
            assert(self@.dom() =~= s.to_set());
        }
        self.entries.len()
    }
}

// ---------------------------------------------------------------------------
// Sets of texts
// ---------------------------------------------------------------------------

/// Whether texts strictly ascend.
pub open spec fn texts_ascend(s: Seq<Seq<char>>) -> bool {
    forall|i: int, j: int| 0 <= i < j < s.len() ==> text_before(#[trigger] s[i], #[trigger] s[j])
}

/// A set of texts.
pub struct TextSet {
    pub members: OrderedMap<String, Count>,
}

impl View for TextSet {
    type V = Set<Seq<char>>;

    open spec fn view(&self) -> Set<Seq<char>> {
        self.members@.dom()
    }
}

impl TextSet {
    /// The invariant of a set.
    pub open spec fn wf(&self) -> bool {
        self.members.wf()
    }

    /// The empty set.
    pub fn new() -> (r: Self)
        ensures
            r.wf(),
            r@ == Set::<Seq<char>>::empty(),
    {
        let r = TextSet { members: OrderedMap::new() };
        assert(r@ =~= Set::<Seq<char>>::empty());
        r
    }

    /// Adds a text.
    pub fn insert(&mut self, text: String)
        requires
            old(self).wf(),
        ensures
            final(self).wf(),
            final(self)@ == old(self)@.insert(text@),
    {
        self.members.insert(text, Count { n: 1 });
        assert(self@ =~= old(self)@.insert(text@));
    }

    /// The set of one text.
    pub fn singleton(text: &str) -> (r: Self)
        ensures
            r.wf(),
            r@ == set![text@],
    {
        let mut r = TextSet::new();
        r.insert(crate::text::owned(text));
        assert(r@ =~= set![text@]);
        r
    }

    /// A set with the same texts.
    pub fn copy(&self) -> (r: Self)
        requires
            self.wf(),
        ensures
            r.wf(),
            r@ == self@,
    {
        let mut r = TextSet::new();
        let ghost items = self.members.items();
        let mut i: usize = 0;
        while i < self.members.entries.len()
            invariant
                i <= self.members.entries.len(),
                items == self.members.items(),
                r.wf(),
                forall|x: Seq<char>| #[trigger]
                    r@.contains(x) <==> exists|j: int| 0 <= j < i && (#[trigger] items[j]).0 == x,
            decreases self.members.entries.len() - i,
        {
            let ghost before = r@;
            r.insert(self.members.entries[i].0.clone());
            assert forall|x: Seq<char>| #[trigger] r@.contains(x) <==> exists|j: int|
                0 <= j < i + 1 && (#[trigger] items[j]).0 == x by {
                if before.contains(x) {
                    let j = choose|j: int| 0 <= j < i && (#[trigger] items[j]).0 == x;
                    assert(items[j].0 == x);
                }
                assert(items[i as int].0 == self.members.entries@[i as int].0@);
                if exists|j: int| 0 <= j < i + 1 && (#[trigger] items[j]).0 == x {
                    let j = choose|j: int| 0 <= j < i + 1 && (#[trigger] items[j]).0 == x;
                    if j < i {
                        assert(before.contains(x));
                    }
                }
            }
            i += 1;
        }
        assert(r@ =~= self@);
        r
    }

    /// The texts of the set, in order.
    pub fn to_list(&self) -> (r: Vec<String>)
        requires
            self.wf(),
        ensures
            crate::text::texts(r@).to_set() == self@,
            texts_ascend(crate::text::texts(r@)),
            r.len() == self.members.entries.len(),
    {
        let ghost items = self.members.items();
        let mut r: Vec<String> = Vec::new();
        let mut i: usize = 0;
        while i < self.members.entries.len()
            invariant
                i <= self.members.entries.len(),
                items == self.members.items(),
                r.len() == i,
                forall|j: int| 0 <= j < i ==> (#[trigger] r@[j])@ == items[j].0,
            decreases self.members.entries.len() - i,
        {
            r.push(self.members.entries[i].0.clone());
            i += 1;
        }
        proof {
            let all = crate::text::texts(r@);
            assert forall|x: Seq<char>| all.to_set().contains(x) <==> self@.contains(x) by {
                if all.contains(x) {
                    let j = choose|j: int| 0 <= j < all.len() && all[j] == x;
                    assert(items[j].0 == x);
                    assert(self.members.has(x));
                }
                if self@.contains(x) {
                    let j = choose|j: int| 0 <= j < items.len() && (#[trigger] items[j]).0 == x;
                    assert(all[j] == x);
                }
            }
            assert(all.to_set() =~= self@);
            assert forall|i: int, j: int| 0 <= i < j < all.len() implies text_before(
                #[trigger] all[i],
                #[trigger] all[j],
            ) by {
                assert(items[i].0 == all[i] && items[j].0 == all[j]);
                assert(items[i].0.before(items[j].0));
            }
        }
        r
    }

    /// The set of the texts of a list.
    pub fn from_list(list: &Vec<String>) -> (r: Self)
        ensures
            r.wf(),
            r@ == crate::text::texts(list@).to_set(),
    {
        let ghost all = crate::text::texts(list@);
        let mut r = TextSet::new();
        let mut i: usize = 0;
        assert(r@ =~= all.take(0).to_set());
        while i < list.len()
            invariant
                i <= list.len(),
                all == crate::text::texts(list@),
                r.wf(),
                r@ == all.take(i as int).to_set(),
            decreases list.len() - i,
        {
            r.insert(list[i].clone());
            proof {
                let a = all.take(i as int);
                let b = all.take(i + 1);
                assert forall|x: Seq<char>| b.to_set().contains(x) <==> a.to_set().insert(
                    all[i as int],
                ).contains(x) by {
                    if a.contains(x) {
                        let j = choose|j: int| 0 <= j < a.len() && a[j] == x;
                        assert(b[j] == x);
                    }
                    assert(b[i as int] == all[i as int]);
                    if b.contains(x) {
                        let j = choose|j: int| 0 <= j < b.len() && b[j] == x;
                        if j < i {
                            assert(a[j] == x);
                        }
                    }
                }
                assert(b.to_set() =~= a.to_set().insert(all[i as int]));
            }
            i += 1;
        }
        assert(all.take(i as int) =~= all);
        r
    }

    /// Takes a text out.
    pub fn remove(&mut self, text: &String)
        requires
            old(self).wf(),
        ensures
            final(self).wf(),
            final(self)@ == old(self)@.remove(text@),
    {
        self.members.remove(text);
        assert(self@ =~= old(self)@.remove(text@));
    }

    /// Whether the set holds a text.
    pub fn contains(&self, text: &String) -> (r: bool)
        requires
            self.wf(),
        ensures
            r == self@.contains(text@),
    {
        self.members.contains(text)
    }

    /// Whether the set holds nothing.
    pub fn is_empty(&self) -> (r: bool)
        requires
            self.wf(),
        ensures
            r == (self@ == Set::<Seq<char>>::empty()),
    {
        proof {
            if self.members@ == Map::<Seq<char>, nat>::empty() {
                assert(self@ =~= Set::<Seq<char>>::empty());
            }
            if self@ == Set::<Seq<char>>::empty() {
                assert(self.members@ =~= Map::<Seq<char>, nat>::empty());
            }
        }
        self.members.is_empty()
    }
}

} // verus!
