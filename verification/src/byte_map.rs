//! A map keyed by byte strings, kept sorted in lexicographic byte order: the
//! order in which reports and rewritten archives list paths.

use vstd::prelude::*;

verus! {

/// Lexicographic order on byte strings; a proper prefix comes first.
pub open spec fn lex_lt(a: Seq<u8>, b: Seq<u8>) -> bool
    decreases a.len(),
{
    if a.len() == 0 {
        b.len() > 0
    } else if b.len() == 0 {
        false
    } else if a[0] < b[0] {
        true
    } else if a[0] > b[0] {
        false
    } else {
        lex_lt(a.drop_first(), b.drop_first())
    }
}

pub proof fn lemma_lex_irreflexive(a: Seq<u8>)
    ensures
        !lex_lt(a, a),
    decreases a.len(),
{
    if a.len() > 0 {
        lemma_lex_irreflexive(a.drop_first());
    }
}

pub proof fn lemma_lex_asymmetric(a: Seq<u8>, b: Seq<u8>)
    ensures
        lex_lt(a, b) ==> !lex_lt(b, a),
    decreases a.len(),
{
    if a.len() > 0 && b.len() > 0 && a[0] == b[0] {
        lemma_lex_asymmetric(a.drop_first(), b.drop_first());
    }
}

pub proof fn lemma_lex_transitive(a: Seq<u8>, b: Seq<u8>, c: Seq<u8>)
    ensures
        lex_lt(a, b) && lex_lt(b, c) ==> lex_lt(a, c),
    decreases a.len(),
{
    if a.len() > 0 && b.len() > 0 && c.len() > 0 {
        lemma_lex_transitive(a.drop_first(), b.drop_first(), c.drop_first());
    }
}

pub proof fn lemma_lex_total(a: Seq<u8>, b: Seq<u8>)
    ensures
        a != b ==> lex_lt(a, b) || lex_lt(b, a),
    decreases a.len(),
{
    if a.len() > 0 && b.len() > 0 && a[0] == b[0] {
        lemma_lex_total(a.drop_first(), b.drop_first());
        if a.drop_first() == b.drop_first() {
            assert(a =~= seq![a[0]] + a.drop_first());
            assert(b =~= seq![b[0]] + b.drop_first());
        }
    } else if a.len() == 0 && b.len() == 0 {
        assert(a =~= b);
    }
}

/// Result of comparing two byte strings.
#[derive(Debug, Clone, Copy, PartialEq, Eq, Structural)]
pub enum ByteOrder {
    Less,
    Equal,
    Greater,
}

/// Compare two byte strings lexicographically.
pub fn compare_bytes(a: &[u8], b: &[u8]) -> (o: ByteOrder)
    ensures
        o == ByteOrder::Less <==> lex_lt(a@, b@),
        o == ByteOrder::Equal <==> a@ == b@,
        o == ByteOrder::Greater <==> lex_lt(b@, a@),
{
    proof {
        lemma_lex_total(a@, b@);
        lemma_lex_asymmetric(a@, b@);
        lemma_lex_irreflexive(a@);
    }
    let mut i: usize = 0;
    assert(a@.skip(0) =~= a@);
    assert(b@.skip(0) =~= b@);
    while i < a.len() && i < b.len()
        invariant
            i <= a@.len(),
            i <= b@.len(),
            a@.take(i as int) == b@.take(i as int),
            lex_lt(a@, b@) == lex_lt(a@.skip(i as int), b@.skip(i as int)),
            lex_lt(b@, a@) == lex_lt(b@.skip(i as int), a@.skip(i as int)),
        decreases a@.len() - i,
    {
        if a[i] < b[i] {
            assert(a@ != b@) by {
                assert(a@[i as int] != b@[i as int]);
            }
            return ByteOrder::Less;
        }
        if a[i] > b[i] {
            assert(a@ != b@) by {
                assert(a@[i as int] != b@[i as int]);
            }
            return ByteOrder::Greater;
        }
        assert(a@.skip(i as int).drop_first() =~= a@.skip(i as int + 1));
        assert(b@.skip(i as int).drop_first() =~= b@.skip(i as int + 1));
        assert(a@.take(i as int + 1) =~= a@.take(i as int).push(a@[i as int]));
        assert(b@.take(i as int + 1) =~= b@.take(i as int).push(b@[i as int]));
        i = i + 1;
    }
    if a.len() == b.len() {
        assert(a@ =~= a@.take(i as int));
        assert(b@ =~= b@.take(i as int));
        ByteOrder::Equal
    } else if i == a.len() {
        assert(a@ != b@);
        ByteOrder::Less
    } else {
        assert(a@ != b@);
        ByteOrder::Greater
    }
}

/// Keys strictly increasing in lexicographic order (so no key occurs twice).
pub open spec fn sorted_keys<V>(s: Seq<(Seq<u8>, V)>) -> bool {
    forall|i: int, j: int| 0 <= i < j < s.len() ==> lex_lt(#[trigger] s[i].0, #[trigger] s[j].0)
}

/// Whether `k` is a key of `s`.
pub open spec fn has_key<V>(s: Seq<(Seq<u8>, V)>, k: Seq<u8>) -> bool {
    exists|i: int| 0 <= i < s.len() && (#[trigger] s[i]).0 == k
}

/// The map from keys to values that the sequence `s` lists (a later listing of a
/// key wins, which never matters for sorted sequences).
pub open spec fn to_map<V>(s: Seq<(Seq<u8>, V)>) -> Map<Seq<u8>, V>
    decreases s.len(),
{
    if s.len() == 0 {
        Map::empty()
    } else {
        to_map(s.drop_last()).insert(s.last().0, s.last().1)
    }
}

/// In a sorted sequence a key sits at one index only.
pub proof fn lemma_sorted_unique<V>(s: Seq<(Seq<u8>, V)>, i: int, j: int)
    requires
        sorted_keys(s),
        0 <= i < s.len(),
        0 <= j < s.len(),
        s[i].0 == s[j].0,
    ensures
        i == j,
{
    if i < j {
        lemma_lex_irreflexive(s[i].0);
    } else if j < i {
        lemma_lex_irreflexive(s[i].0);
    }
}

/// The keys of the map are the listed keys.
pub proof fn lemma_to_map_dom<V>(s: Seq<(Seq<u8>, V)>, k: Seq<u8>)
    ensures
        to_map(s).contains_key(k) <==> has_key(s, k),
    decreases s.len(),
{
    if s.len() > 0 {
        let init = s.drop_last();
        lemma_to_map_dom(init, k);
        if has_key(init, k) {
            let j = choose|j: int| 0 <= j < init.len() && (#[trigger] init[j]).0 == k;
            assert(s[j] == init[j]);
        }
        if has_key(s, k) && s.last().0 != k {
            let j = choose|j: int| 0 <= j < s.len() && (#[trigger] s[j]).0 == k;
            assert(init[j] == s[j]);
        }
        if s.last().0 == k {
            assert(s[s.len() - 1].0 == k);
        }
    }
}

/// The map of a sorted sequence gives each listed key its listed value.
pub proof fn lemma_to_map_at<V>(s: Seq<(Seq<u8>, V)>, i: int)
    requires
        sorted_keys(s),
        0 <= i < s.len(),
    ensures
        to_map(s).contains_key(s[i].0),
        to_map(s)[s[i].0] == s[i].1,
    decreases s.len(),
{
    let init = s.drop_last();
    if i < s.len() - 1 {
        assert(sorted_keys(init)) by {
            assert forall|a: int, b: int| 0 <= a < b < init.len() implies lex_lt(#[trigger] init[a].0, #[trigger] init[b].0) by {
                assert(init[a] == s[a]);
                assert(init[b] == s[b]);
            }
        }
        assert(init[i] == s[i]);
        lemma_to_map_at(init, i);
        if s.last().0 == s[i].0 {
            lemma_sorted_unique(s, i, s.len() - 1);
        }
    }
}

/// `s` with `(k, v)` put in its sorted place: replacing the entry of `k` when
/// there is one, otherwise inserted before the first greater key.
pub open spec fn sorted_insert<V>(s: Seq<(Seq<u8>, V)>, k: Seq<u8>, v: V) -> Seq<(Seq<u8>, V)>
    decreases s.len(),
{
    if s.len() == 0 {
        seq![(k, v)]
    } else if s[0].0 == k {
        seq![(k, v)] + s.drop_first()
    } else if lex_lt(k, s[0].0) {
        seq![(k, v)] + s
    } else {
        seq![s[0]] + sorted_insert(s.drop_first(), k, v)
    }
}

/// `sorted_insert` at a known position.
pub proof fn lemma_sorted_insert_at<V>(s: Seq<(Seq<u8>, V)>, k: Seq<u8>, v: V, i: int)
    requires
        0 <= i <= s.len(),
        forall|j: int| 0 <= j < i ==> lex_lt(#[trigger] s[j].0, k),
        i < s.len() ==> s[i].0 == k || lex_lt(k, s[i].0),
    ensures
        sorted_insert(s, k, v) == if i < s.len() && s[i].0 == k {
            s.update(i, (k, v))
        } else {
            s.insert(i, (k, v))
        },
    decreases i,
{
    if s.len() == 0 {
        assert(s.insert(0, (k, v)) =~= seq![(k, v)]);
    } else if i == 0 {
        if s[0].0 == k {
            assert(s.update(0, (k, v)) =~= seq![(k, v)] + s.drop_first());
        } else {
            assert(s.insert(0, (k, v)) =~= seq![(k, v)] + s);
        }
    } else {
        assert(lex_lt(s[0].0, k));
        lemma_lex_irreflexive(k);
        lemma_lex_asymmetric(s[0].0, k);
        let t = s.drop_first();
        assert forall|j: int| 0 <= j < i - 1 implies lex_lt(#[trigger] t[j].0, k) by {
            assert(t[j] == s[j + 1]);
        }
        lemma_sorted_insert_at(t, k, v, i - 1);
        if i < s.len() && s[i].0 == k {
            assert(seq![s[0]] + t.update(i - 1, (k, v)) =~= s.update(i, (k, v)));
        } else {
            assert(seq![s[0]] + t.insert(i - 1, (k, v)) =~= s.insert(i, (k, v)));
        }
    }
}

/// Where `k` belongs in a sorted sequence: after every smaller key, and at or
/// before every other one.
pub proof fn lemma_insert_position<V>(s: Seq<(Seq<u8>, V)>, k: Seq<u8>) -> (i: int)
    requires
        sorted_keys(s),
    ensures
        0 <= i <= s.len(),
        forall|j: int| 0 <= j < i ==> lex_lt(#[trigger] s[j].0, k),
        i < s.len() ==> s[i].0 == k || lex_lt(k, s[i].0),
    decreases s.len(),
{
    if s.len() == 0 {
        0
    } else {
        let init = s.drop_last();
        assert(sorted_keys(init)) by {
            assert forall|a: int, b: int| 0 <= a < b < init.len() implies lex_lt(#[trigger] init[a].0, #[trigger] init[b].0) by {
                assert(init[a] == s[a]);
                assert(init[b] == s[b]);
            }
        }
        let i = lemma_insert_position(init, k);
        assert forall|j: int| 0 <= j < i implies lex_lt(#[trigger] s[j].0, k) by {
            assert(init[j] == s[j]);
        }
        if i < init.len() {
            assert(init[i] == s[i]);
            i
        } else {
            lemma_lex_total(s.last().0, k);
            if lex_lt(s.last().0, k) {
                s.len() as int
            } else {
                (s.len() - 1) as int
            }
        }
    }
}

/// Inserting into a sorted sequence keeps it sorted, gives its map the new
/// binding, and grows it by one exactly when the key is new.
pub proof fn lemma_sorted_insert<V>(s: Seq<(Seq<u8>, V)>, k: Seq<u8>, v: V)
    requires
        sorted_keys(s),
    ensures
        sorted_keys(sorted_insert(s, k, v)),
        to_map(sorted_insert(s, k, v)) == to_map(s).insert(k, v),
        sorted_insert(s, k, v).len() == s.len() + if has_key(s, k) { 0int } else { 1int },
{
    let i = lemma_insert_position(s, k);
    lemma_sorted_insert_at(s, k, v, i);
    let t = sorted_insert(s, k, v);
    lemma_lex_irreflexive(k);
    if i < s.len() && s[i].0 == k {
        assert(t =~= s.update(i, (k, v)));
        assert(has_key(s, k)) by {
            assert(s[i].0 == k);
        }
        assert(sorted_keys(t)) by {
            assert forall|a: int, b: int| 0 <= a < b < t.len() implies lex_lt(#[trigger] t[a].0, #[trigger] t[b].0) by {
                assert(t[a].0 == s[a].0);
                assert(t[b].0 == s[b].0);
            }
        }
        assert(to_map(t) =~= to_map(s).insert(k, v)) by {
            assert forall|x: Seq<u8>| #[trigger] to_map(t).contains_key(x) <==> to_map(s).insert(k, v).contains_key(x) by {
                lemma_to_map_dom(t, x);
                lemma_to_map_dom(s, x);
                if has_key(s, x) {
                    let j = choose|j: int| 0 <= j < s.len() && (#[trigger] s[j]).0 == x;
                    assert(t[j].0 == x);
                }
                if has_key(t, x) {
                    let j = choose|j: int| 0 <= j < t.len() && (#[trigger] t[j]).0 == x;
                    assert(s[j].0 == x);
                }
            }
            assert forall|x: Seq<u8>| #[trigger] to_map(t).contains_key(x) implies to_map(t)[x] == to_map(s).insert(k, v)[x] by {
                lemma_to_map_dom(t, x);
                let j = choose|j: int| 0 <= j < t.len() && (#[trigger] t[j]).0 == x;
                lemma_to_map_at(t, j);
                if j != i {
                    assert(t[j] == s[j]);
                    lemma_to_map_at(s, j);
                    if x == k {
                        assert(t[i].0 == k);
                        lemma_sorted_unique(t, i, j);
                    }
                } else {
                    assert(t[j] == (k, v));
                }
            }
        }
    } else {
        assert(t =~= s.insert(i, (k, v)));
        assert(!has_key(s, k)) by {
            if has_key(s, k) {
                let j = choose|j: int| 0 <= j < s.len() && (#[trigger] s[j]).0 == k;
                if j < i {
                    assert(lex_lt(s[j].0, k));
                } else if j > i {
                    assert(lex_lt(s[i].0, s[j].0));
                    lemma_lex_transitive(k, s[i].0, s[j].0);
                }
            }
        }
        assert(sorted_keys(t)) by {
            assert forall|a: int, b: int| 0 <= a < b < t.len() implies lex_lt(#[trigger] t[a].0, #[trigger] t[b].0) by {
                if b < i {
                } else if b == i {
                    assert(t[a].0 == s[a].0);
                } else if a == i {
                    assert(t[b].0 == s[b - 1].0);
                    if b - 1 > i {
                        assert(lex_lt(s[i].0, s[b - 1].0));
                        lemma_lex_transitive(k, s[i].0, s[b - 1].0);
                    }
                } else if a > i {
                    assert(t[a].0 == s[a - 1].0);
                    assert(t[b].0 == s[b - 1].0);
                } else {
                    assert(t[a].0 == s[a].0);
                    assert(t[b].0 == s[b - 1].0);
                    assert(lex_lt(s[a].0, k));
                    if b - 1 == i {
                        lemma_lex_transitive(s[a].0, k, s[i].0);
                    } else {
                        assert(lex_lt(s[a].0, s[b - 1].0));
                    }
                }
            }
        }
        assert(to_map(t) =~= to_map(s).insert(k, v)) by {
            assert forall|x: Seq<u8>| #[trigger] to_map(t).contains_key(x) <==> to_map(s).insert(k, v).contains_key(x) by {
                lemma_to_map_dom(t, x);
                lemma_to_map_dom(s, x);
                if has_key(s, x) {
                    let j = choose|j: int| 0 <= j < s.len() && (#[trigger] s[j]).0 == x;
                    if j < i {
                        assert(t[j].0 == x);
                    } else {
                        assert(t[j + 1].0 == x);
                    }
                }
                if x == k {
                    assert(t[i].0 == x);
                }
                if has_key(t, x) {
                    let j = choose|j: int| 0 <= j < t.len() && (#[trigger] t[j]).0 == x;
                    if j < i {
                        assert(s[j].0 == x);
                    } else if j > i {
                        assert(s[j - 1].0 == x);
                    }
                }
            }
            assert forall|x: Seq<u8>| #[trigger] to_map(t).contains_key(x) implies to_map(t)[x] == to_map(s).insert(k, v)[x] by {
                lemma_to_map_dom(t, x);
                let j = choose|j: int| 0 <= j < t.len() && (#[trigger] t[j]).0 == x;
                lemma_to_map_at(t, j);
                if j < i {
                    assert(s[j] == t[j]);
                    lemma_to_map_at(s, j);
                    assert(has_key(s, x));
                    assert(x != k);
                } else if j > i {
                    assert(s[j - 1] == t[j]);
                    lemma_to_map_at(s, j - 1);
                    assert(has_key(s, x));
                    assert(x != k);
                } else {
                    assert(t[j] == (k, v));
                }
            }
        }
    }
}

/// Every element of `sorted_insert(s, k, v)` is `(k, v)` or an element of `s`.
pub proof fn lemma_sorted_insert_elements<V>(s: Seq<(Seq<u8>, V)>, k: Seq<u8>, v: V)
    ensures
        forall|j: int| 0 <= j < sorted_insert(s, k, v).len() ==> #[trigger] sorted_insert(s, k, v)[j] == (k, v)
            || s.contains(sorted_insert(s, k, v)[j]),
    decreases s.len(),
{
    let t = sorted_insert(s, k, v);
    if s.len() > 0 {
        if s[0].0 == k {
            assert forall|j: int| 0 <= j < t.len() implies #[trigger] t[j] == (k, v) || s.contains(t[j]) by {
                if j > 0 {
                    assert(t[j] == s[j]);
                }
            }
        } else if lex_lt(k, s[0].0) {
            assert forall|j: int| 0 <= j < t.len() implies #[trigger] t[j] == (k, v) || s.contains(t[j]) by {
                if j > 0 {
                    assert(t[j] == s[j - 1]);
                }
            }
        } else {
            let r = sorted_insert(s.drop_first(), k, v);
            lemma_sorted_insert_elements(s.drop_first(), k, v);
            assert forall|j: int| 0 <= j < t.len() implies #[trigger] t[j] == (k, v) || s.contains(t[j]) by {
                if j == 0 {
                    assert(t[0] == s[0]);
                } else {
                    assert(t[j] == r[j - 1]);
                    if s.drop_first().contains(r[j - 1]) {
                        let i = choose|i: int| 0 <= i < s.drop_first().len() && s.drop_first()[i] == r[j - 1];
                        assert(s[i + 1] == r[j - 1]);
                    }
                }
            }
        }
    }
}

/// A map keyed by byte strings, stored as a vector sorted by key.
pub struct ByteMap<V> {
    entries: Vec<(Vec<u8>, V)>,
}

impl<V> View for ByteMap<V> {
    type V = Seq<(Seq<u8>, V)>;

    closed spec fn view(&self) -> Seq<(Seq<u8>, V)> {
        self.entries@.map_values(|e: (Vec<u8>, V)| (e.0@, e.1))
    }
}

impl<V> ByteMap<V> {
    /// The entries are kept sorted by key, so each key occurs once.
    #[verifier::type_invariant]
    closed spec fn keys_sorted(self) -> bool {
        sorted_keys(self@)
    }

    pub fn new() -> (m: Self)
        ensures
            m@ == Seq::<(Seq<u8>, V)>::empty(),
    {
        let m = ByteMap { entries: Vec::new() };
        assert(m@ =~= Seq::<(Seq<u8>, V)>::empty());
        m
    }

    pub fn len(&self) -> (n: usize)
        ensures
            n == self@.len(),
    {
        self.entries.len()
    }

    /// The key and value at sorted position `i`.
    pub fn entry_at(&self, i: usize) -> (kv: (&Vec<u8>, &V))
        requires
            i < self@.len(),
        ensures
            kv.0@ == self@[i as int].0,
            *kv.1 == self@[i as int].1,
    {
        let e = &self.entries[i];
        (&e.0, &e.1)
    }

    /// Binary search: `Ok(i)` where the key sits, or `Err(i)` where it would go.
    pub fn find(&self, key: &[u8]) -> (r: Result<usize, usize>)
        ensures
            r matches Ok(i) ==> i < self@.len() && self@[i as int].0 == key@,
            r matches Err(i) ==> i <= self@.len()
                && (forall|j: int| 0 <= j < i ==> lex_lt(#[trigger] self@[j].0, key@))
                && (forall|j: int| i <= j < self@.len() ==> lex_lt(key@, #[trigger] self@[j].0)),
            r is Err <==> !has_key(self@, key@),
    {
        proof {
            use_type_invariant(self);
        }
        let ghost s = self@;
        let mut lo: usize = 0;
        let mut hi: usize = self.entries.len();
        while lo < hi
            invariant
                s == self@,
                sorted_keys(s),
                lo <= hi <= s.len(),
                forall|j: int| 0 <= j < lo ==> lex_lt(#[trigger] s[j].0, key@),
                forall|j: int| hi <= j < s.len() ==> lex_lt(key@, #[trigger] s[j].0),
            decreases hi - lo,
        {
            let mid = lo + (hi - lo) / 2;
            let e = &self.entries[mid];
            assert(s[mid as int].0 == e.0@);
            match compare_bytes(e.0.as_slice(), key) {
                ByteOrder::Equal => {
                    return Ok(mid);
                },
                ByteOrder::Less => {
                    assert forall|j: int| 0 <= j < mid + 1 implies lex_lt(#[trigger] s[j].0, key@) by {
                        if j < mid {
                            lemma_lex_transitive(s[j].0, s[mid as int].0, key@);
                        }
                    }
                    lo = mid + 1;
                },
                ByteOrder::Greater => {
                    assert forall|j: int| mid <= j < s.len() implies lex_lt(key@, #[trigger] s[j].0) by {
                        if j > mid {
                            lemma_lex_transitive(key@, s[mid as int].0, s[j].0);
                        }
                    }
                    hi = mid;
                },
            }
        }
        proof {
            assert forall|j: int| 0 <= j < s.len() implies (#[trigger] s[j]).0 != key@ by {
                if j < lo {
                    lemma_lex_irreflexive(key@);
                } else {
                    lemma_lex_irreflexive(key@);
                }
            }
        }
        Err(lo)
    }

    pub fn contains_key(&self, key: &[u8]) -> (b: bool)
        ensures
            b <==> has_key(self@, key@),
            b <==> to_map(self@).contains_key(key@),
    {
        proof {
            use_type_invariant(self);
        }
        proof {
            lemma_to_map_dom(self@, key@);
        }
        match self.find(key) {
            Ok(_) => true,
            Err(_) => false,
        }
    }

    pub fn get(&self, key: &[u8]) -> (r: Option<&V>)
        ensures
            r is Some <==> to_map(self@).contains_key(key@),
            r matches Some(v) ==> *v == to_map(self@)[key@],
    {
        proof {
            use_type_invariant(self);
        }
        proof {
            lemma_to_map_dom(self@, key@);
        }
        match self.find(key) {
            Ok(i) => {
                proof {
                    lemma_to_map_at(self@, i as int);
                }
                Some(&self.entries[i].1)
            },
            Err(_) => None,
        }
    }

    /// Insert or replace the value of `key`; returns the replaced value.
    pub fn insert(&mut self, key: Vec<u8>, value: V) -> (replaced: Option<V>)
        ensures
            sorted_keys(final(self)@),
            final(self)@ == sorted_insert(old(self)@, key@, value),
            to_map(final(self)@) == to_map(old(self)@).insert(key@, value),
            replaced is Some <==> has_key(old(self)@, key@),
            replaced matches Some(v) ==> v == to_map(old(self)@)[key@],
            final(self)@.len() == old(self)@.len() + if has_key(old(self)@, key@) { 0int } else { 1int },
    {
        proof {
            use_type_invariant(&*self);
        }
        let ghost s = self@;
        let ghost k = key@;
        proof {
            lemma_to_map_dom(s, k);
            lemma_sorted_insert(s, k, value);
        }
        match self.find(key.as_slice()) {
            Ok(i) => {
                proof {
                    lemma_to_map_at(s, i as int);
                    assert forall|j: int| 0 <= j < i implies lex_lt(#[trigger] s[j].0, k) by {
                        assert(lex_lt(s[j].0, s[i as int].0));
                    }
                    lemma_sorted_insert_at(s, k, value, i as int);
                }
                let mut entries: Vec<(Vec<u8>, V)> = Vec::new();
                std::mem::swap(&mut entries, &mut self.entries);
                let old_entry = entries.remove(i);
                entries.insert(i, (key, value));
                assert(entries@.map_values(|e: (Vec<u8>, V)| (e.0@, e.1)) =~= s.update(i as int, (k, value)));
                self.entries = entries;
                Some(old_entry.1)
            },
            Err(i) => {
                proof {
                    lemma_sorted_insert_at(s, k, value, i as int);
                }
                let mut entries: Vec<(Vec<u8>, V)> = Vec::new();
                std::mem::swap(&mut entries, &mut self.entries);
                entries.insert(i, (key, value));
                assert(entries@.map_values(|e: (Vec<u8>, V)| (e.0@, e.1)) =~= s.insert(i as int, (k, value)));
                self.entries = entries;
                None
            },
        }
    }
}

} // verus!
