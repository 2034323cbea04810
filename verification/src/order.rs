use crate::text::bytes_before;
use vstd::prelude::*;

verus! {

/// What records are ordered by: a number, then a byte string, then a second
/// number.
pub ghost struct SortKey {
    pub major: int,
    pub text: Seq<u8>,
    pub minor: int,
}

/// The strict order of keys: by `major`, then by `text` as byte strings, then
/// by `minor`.
pub open spec fn key_before(a: SortKey, b: SortKey) -> bool {
    a.major < b.major || (a.major == b.major && (bytes_before(a.text, b.text) || (a.text == b.text
        && a.minor < b.minor)))
}

/// No byte string comes before itself.
pub proof fn lemma_bytes_before_irreflexive(a: Seq<u8>)
    ensures
        !bytes_before(a, a),
    decreases a.len(),
{
    if a.len() > 0 {
        lemma_bytes_before_irreflexive(a.drop_first());
    }
}

/// Of two byte strings exactly one comes before the other, or they are equal.
pub proof fn lemma_bytes_before_total(a: Seq<u8>, b: Seq<u8>)
    ensures
        !(bytes_before(a, b) && bytes_before(b, a)),
        !bytes_before(a, a),
        bytes_before(a, b) || bytes_before(b, a) || a == b,
    decreases a.len(),
{
    lemma_bytes_before_irreflexive(a);
    if a.len() == 0 || b.len() == 0 {
        if a.len() == 0 && b.len() == 0 {
            assert(a =~= b);
        }
    } else {
        lemma_bytes_before_total(a.drop_first(), b.drop_first());
        if a[0] == b[0] && a.drop_first() == b.drop_first() {
            assert(a =~= seq![a[0]] + a.drop_first());
            assert(b =~= seq![b[0]] + b.drop_first());
        }
    }
}

/// What comes before a byte string comes before all that it comes before.
pub proof fn lemma_bytes_before_transitive(a: Seq<u8>, b: Seq<u8>, c: Seq<u8>)
    requires
        bytes_before(a, b),
        bytes_before(b, c),
    ensures
        bytes_before(a, c),
    decreases a.len(),
{
    if a.len() > 0 && a[0] == b[0] && b[0] == c[0] {
        lemma_bytes_before_transitive(a.drop_first(), b.drop_first(), c.drop_first());
    }
}

/// `key_before` is a strict total order.
pub proof fn lemma_key_order(a: SortKey, b: SortKey, c: SortKey)
    ensures
        !key_before(a, a),
        !(key_before(a, b) && key_before(b, a)),
        key_before(a, b) || key_before(b, a) || a == b,
        key_before(a, b) && key_before(b, c) ==> key_before(a, c),
        !key_before(b, a) && !key_before(c, b) ==> !key_before(c, a),
{
    lemma_bytes_before_total(a.text, b.text);
    lemma_bytes_before_total(b.text, c.text);
    lemma_bytes_before_total(a.text, c.text);
    lemma_bytes_before_total(a.text, a.text);
    if bytes_before(a.text, b.text) && bytes_before(b.text, c.text) {
        lemma_bytes_before_transitive(a.text, b.text, c.text);
    }
    if bytes_before(c.text, b.text) && bytes_before(b.text, a.text) {
        lemma_bytes_before_transitive(c.text, b.text, a.text);
    }
}

/// `s` with `x` put in before the first record that does not come before it.
pub open spec fn insert_front<A>(x: A, s: Seq<A>, key: spec_fn(A) -> SortKey) -> Seq<A>
    decreases s.len(),
{
    if s.len() == 0 || !key_before(key(s[0]), key(x)) {
        seq![x] + s
    } else {
        seq![s[0]] + insert_front(x, s.drop_first(), key)
    }
}

/// The records of `s` in the order of their keys; records with equal keys
/// keep the order they have in `s`.
pub open spec fn sorted<A>(s: Seq<A>, key: spec_fn(A) -> SortKey) -> Seq<A>
    decreases s.len(),
{
    if s.len() == 0 {
        s
    } else {
        insert_front(s[0], sorted(s.drop_first(), key), key)
    }
}

/// No record of `s` comes before one that stands earlier.
pub open spec fn ordered<A>(s: Seq<A>, key: spec_fn(A) -> SortKey) -> bool {
    forall|i: int, j: int| 0 <= i < j < s.len() ==> !key_before(#[trigger] key(s[j]), #[trigger] key(s[i]))
}

/// Where `x` goes when it is put into `s`.
pub proof fn lemma_insert_front_at<A>(x: A, s: Seq<A>, key: spec_fn(A) -> SortKey, j: int)
    requires
        0 <= j <= s.len(),
        forall|i: int| 0 <= i < j ==> key_before(#[trigger] key(s[i]), key(x)),
        j == s.len() || !key_before(key(s[j]), key(x)),
    ensures
        insert_front(x, s, key) == s.insert(j, x),
    decreases j,
{
    if j == 0 {
        assert(seq![x] + s =~= s.insert(0, x));
    } else {
        let t = s.drop_first();
        assert forall|i: int| 0 <= i < j - 1 implies key_before(#[trigger] key(t[i]), key(x)) by {
            assert(t[i] == s[i + 1]);
        }
        lemma_insert_front_at(x, t, key, j - 1);
        assert(seq![s[0]] + t.insert(j - 1, x) =~= s.insert(j, x));
    }
}

proof fn lemma_insert_front_shape<A>(x: A, s: Seq<A>, key: spec_fn(A) -> SortKey) -> (j: int)
    ensures
        0 <= j <= s.len(),
        insert_front(x, s, key) == s.insert(j, x),
        forall|i: int| 0 <= i < j ==> key_before(#[trigger] key(s[i]), key(x)),
        j == s.len() || !key_before(key(s[j]), key(x)),
    decreases s.len(),
{
    if s.len() == 0 || !key_before(key(s[0]), key(x)) {
        assert(seq![x] + s =~= s.insert(0, x));
        0
    } else {
        let t = s.drop_first();
        let k = lemma_insert_front_shape(x, t, key);
        assert(seq![s[0]] + t.insert(k, x) =~= s.insert(k + 1, x));
        assert forall|i: int| 0 <= i < k + 1 implies key_before(#[trigger] key(s[i]), key(x)) by {
            if i > 0 {
                assert(s[i] == t[i - 1]);
            }
        }
        k + 1
    }
}

proof fn lemma_insert_front_ordered<A>(x: A, s: Seq<A>, key: spec_fn(A) -> SortKey)
    requires
        ordered(s, key),
    ensures
        ordered(insert_front(x, s, key), key),
        insert_front(x, s, key).to_multiset() == s.to_multiset().insert(x),
        insert_front(x, s, key).len() == s.len() + 1,
{
    let j = lemma_insert_front_shape(x, s, key);
    let r = s.insert(j, x);
    vstd::seq_lib::to_multiset_insert(s, j, x);
    assert forall|a: int, b: int| 0 <= a < b < r.len() implies !key_before(
        #[trigger] key(r[b]),
        #[trigger] key(r[a]),
    ) by {
        if b == j {
            // r[a] = s[a] comes before x
            lemma_key_order(key(s[a]), key(x), key(x));
        } else if a == j {
            // r[b] = s[b - 1] with b - 1 >= j
            if b - 1 > j {
                assert(!key_before(key(s[b - 1]), key(s[j])));
            }
            lemma_key_order(key(x), key(s[j]), key(s[b - 1]));
        } else {
            let a0 = if a < j { a } else { a - 1 };
            let b0 = if b < j { b } else { b - 1 };
            assert(r[a] == s[a0]);
            assert(r[b] == s[b0]);
            assert(!key_before(key(s[b0]), key(s[a0])));
        }
    }
}

/// What `sorted` gives holds the records of `s`, each as often as `s` does,
/// and is ordered by key.
pub proof fn lemma_sorted<A>(s: Seq<A>, key: spec_fn(A) -> SortKey)
    ensures
        ordered(sorted(s, key), key),
        sorted(s, key).to_multiset() == s.to_multiset(),
        sorted(s, key).len() == s.len(),
    decreases s.len(),
{
    broadcast use vstd::seq_lib::group_to_multiset_ensures;
    if s.len() == 0 {
    } else {
        let t = s.drop_first();
        lemma_sorted(t, key);
        lemma_insert_front_ordered(s[0], sorted(t, key), key);
        assert(s =~= seq![s[0]] + t);
        assert(s =~= t.insert(0, s[0]));
        vstd::seq_lib::to_multiset_insert(t, 0, s[0]);
    }
}

/// Sorting an ordered sequence changes nothing.
pub proof fn lemma_sorted_of_ordered<A>(s: Seq<A>, key: spec_fn(A) -> SortKey)
    requires
        ordered(s, key),
    ensures
        sorted(s, key) == s,
    decreases s.len(),
{
    if s.len() > 0 {
        let t = s.drop_first();
        assert forall|i: int, j: int| 0 <= i < j < t.len() implies !key_before(
            #[trigger] key(t[j]),
            #[trigger] key(t[i]),
        ) by {
            assert(t[i] == s[i + 1] && t[j] == s[j + 1]);
        }
        lemma_sorted_of_ordered(t, key);
        if t.len() > 0 {
            assert(t[0] == s[1]);
            assert(!key_before(key(s[1]), key(s[0])));
        }
        assert(seq![s[0]] + t =~= s);
    }
}

/// Sorting what is sorted changes nothing.
pub proof fn lemma_sorted_twice<A>(s: Seq<A>, key: spec_fn(A) -> SortKey)
    ensures
        sorted(sorted(s, key), key) == sorted(s, key),
{
    lemma_sorted(s, key);
    lemma_sorted_of_ordered(sorted(s, key), key);
}

/// Sorting commutes with a map that keeps the keys.
pub proof fn lemma_sorted_map<A, B>(
    s: Seq<A>,
    f: spec_fn(A) -> B,
    key_a: spec_fn(A) -> SortKey,
    key_b: spec_fn(B) -> SortKey,
)
    requires
        forall|a: A| #[trigger] key_b(f(a)) == key_a(a),
    ensures
        sorted(s.map_values(f), key_b) == sorted(s, key_a).map_values(f),
    decreases s.len(),
{
    if s.len() == 0 {
        assert(s.map_values(f) =~= sorted(s, key_a).map_values(f));
    } else {
        let t = s.drop_first();
        lemma_sorted_map(t, f, key_a, key_b);
        assert(s.map_values(f).drop_first() =~= t.map_values(f));
        lemma_insert_front_map(s[0], sorted(t, key_a), f, key_a, key_b);
    }
}

proof fn lemma_insert_front_map<A, B>(
    x: A,
    s: Seq<A>,
    f: spec_fn(A) -> B,
    key_a: spec_fn(A) -> SortKey,
    key_b: spec_fn(B) -> SortKey,
)
    requires
        forall|a: A| #[trigger] key_b(f(a)) == key_a(a),
    ensures
        insert_front(f(x), s.map_values(f), key_b) == insert_front(x, s, key_a).map_values(f),
    decreases s.len(),
{
    if s.len() == 0 || !key_before(key_a(s[0]), key_a(x)) {
        assert(seq![f(x)] + s.map_values(f) =~= (seq![x] + s).map_values(f));
    } else {
        let t = s.drop_first();
        lemma_insert_front_map(x, t, f, key_a, key_b);
        assert(s.map_values(f).drop_first() =~= t.map_values(f));
        assert(seq![f(s[0])] + insert_front(x, t, key_a).map_values(f) =~= (seq![s[0]]
            + insert_front(x, t, key_a)).map_values(f));
    }
}

/// What holds of every record of `s` holds of every record of `sorted(s)`.
pub proof fn lemma_sorted_keeps<A>(s: Seq<A>, key: spec_fn(A) -> SortKey, holds: spec_fn(A) -> bool)
    requires
        forall|i: int| 0 <= i < s.len() ==> holds(#[trigger] s[i]),
    ensures
        forall|i: int| 0 <= i < sorted(s, key).len() ==> holds(#[trigger] sorted(s, key)[i]),
    decreases s.len(),
{
    if s.len() > 0 {
        let t = s.drop_first();
        assert forall|i: int| 0 <= i < t.len() implies holds(#[trigger] t[i]) by {
            assert(t[i] == s[i + 1]);
        }
        lemma_sorted_keeps(t, key, holds);
        let r = sorted(t, key);
        let j = lemma_insert_front_shape(s[0], r, key);
        assert forall|i: int| 0 <= i < r.insert(j, s[0]).len() implies holds(
            #[trigger] r.insert(j, s[0])[i],
        ) by {
            if i < j {
                assert(r.insert(j, s[0])[i] == r[i]);
            } else if i > j {
                assert(r.insert(j, s[0])[i] == r[i - 1]);
            }
        }
    }
}

/// Two ordered sequences of the same records are equal, where records with
/// equal keys are equal.
pub proof fn lemma_ordered_unique<A>(x: Seq<A>, y: Seq<A>, key: spec_fn(A) -> SortKey)
    requires
        ordered(x, key),
        ordered(y, key),
        x.to_multiset() == y.to_multiset(),
        forall|i: int, j: int|
            0 <= i < x.len() && 0 <= j < x.len() && key(x[i]) == key(x[j]) ==> x[i] == x[j],
    ensures
        x == y,
    decreases x.len(),
{
    broadcast use vstd::multiset::group_multiset_axioms;
    broadcast use vstd::seq_lib::group_to_multiset_ensures;

    assert(x.len() == y.len()) by {
        vstd::seq_lib::to_multiset_len(x);
        vstd::seq_lib::to_multiset_len(y);
    }
    if x.len() == 0 {
        assert(x =~= y);
    } else {
        assert(x.to_multiset().contains(x[0]));
        assert(y.to_multiset().contains(y[0]));
        assert(x.to_multiset().contains(y[0]));
        assert(y.to_multiset().contains(x[0]));
        let i = choose|i: int| 0 <= i < x.len() && x[i] == y[0];
        let j = choose|j: int| 0 <= j < y.len() && y[j] == x[0];
        if i > 0 {
            assert(!key_before(key(x[i]), key(x[0])));
        }
        if j > 0 {
            assert(!key_before(key(y[j]), key(y[0])));
        }
        lemma_key_order(key(x[0]), key(y[0]), key(y[0]));
        assert(key(x[0]) == key(y[0]));
        assert(x[0] == x[i]);
        let xt = x.drop_first();
        let yt = y.drop_first();
        assert(xt.to_multiset() =~= x.to_multiset().remove(x[0])) by {
            vstd::seq_lib::to_multiset_remove(x, 0);
            assert(x.remove(0) =~= xt);
        }
        assert(yt.to_multiset() =~= y.to_multiset().remove(y[0])) by {
            vstd::seq_lib::to_multiset_remove(y, 0);
            assert(y.remove(0) =~= yt);
        }
        assert forall|a: int, b: int| 0 <= a < b < xt.len() implies !key_before(
            #[trigger] key(xt[b]),
            #[trigger] key(xt[a]),
        ) by {
            assert(xt[a] == x[a + 1] && xt[b] == x[b + 1]);
        }
        assert forall|a: int, b: int| 0 <= a < b < yt.len() implies !key_before(
            #[trigger] key(yt[b]),
            #[trigger] key(yt[a]),
        ) by {
            assert(yt[a] == y[a + 1] && yt[b] == y[b + 1]);
        }
        assert forall|a: int, b: int|
            0 <= a < xt.len() && 0 <= b < xt.len() && key(xt[a]) == key(xt[b]) implies xt[a]
            == xt[b] by {
            assert(xt[a] == x[a + 1] && xt[b] == x[b + 1]);
        }
        lemma_ordered_unique(xt, yt, key);
        assert(x =~= seq![x[0]] + xt);
        assert(y =~= seq![y[0]] + yt);
    }
}

/// The order that `sorted` gives does not depend on the order in which the
/// records come, where records with equal keys are equal.
pub proof fn lemma_sorted_order_independent<A>(s: Seq<A>, t: Seq<A>, key: spec_fn(A) -> SortKey)
    requires
        s.to_multiset() == t.to_multiset(),
        forall|i: int, j: int|
            0 <= i < s.len() && 0 <= j < s.len() && key(s[i]) == key(s[j]) ==> s[i] == s[j],
    ensures
        sorted(s, key) == sorted(t, key),
        ordered(sorted(s, key), key),
{
    broadcast use vstd::multiset::group_multiset_axioms;
    broadcast use vstd::seq_lib::group_to_multiset_ensures;

    lemma_sorted(s, key);
    lemma_sorted(t, key);
    let x = sorted(s, key);
    assert forall|i: int, j: int|
        0 <= i < x.len() && 0 <= j < x.len() && key(x[i]) == key(x[j]) implies x[i] == x[j] by {
        assert(x.to_multiset().contains(x[i]));
        assert(x.to_multiset().contains(x[j]));
        assert(s.to_multiset().contains(x[i]));
        assert(s.to_multiset().contains(x[j]));
        let a = choose|a: int| 0 <= a < s.len() && s[a] == x[i];
        let b = choose|b: int| 0 <= b < s.len() && s[b] == x[j];
        assert(s[a] == s[b]);
    }
    lemma_ordered_unique(x, sorted(t, key), key);
}

/// Each record of `s` comes before every one that stands later.
pub open spec fn strictly_ordered<A>(s: Seq<A>, key: spec_fn(A) -> SortKey) -> bool {
    forall|i: int, j: int| 0 <= i < j < s.len() ==> key_before(#[trigger] key(s[i]), #[trigger] key(s[j]))
}

/// No two records of `s` have the same key.
pub open spec fn distinct_keys<A>(s: Seq<A>, key: spec_fn(A) -> SortKey) -> bool {
    forall|i: int, j: int| 0 <= i < j < s.len() ==> #[trigger] key(s[i]) != #[trigger] key(s[j])
}

/// Records without a key in common come out of `sorted` each before the
/// next: no two stand level.
pub proof fn lemma_sorted_distinct<A>(s: Seq<A>, key: spec_fn(A) -> SortKey)
    requires
        distinct_keys(s, key),
    ensures
        strictly_ordered(sorted(s, key), key),
    decreases s.len(),
{
    if s.len() > 0 {
        let x = s[0];
        let t = s.drop_first();
        assert forall|i: int, j: int| 0 <= i < j < t.len() implies #[trigger] key(t[i])
            != #[trigger] key(t[j]) by {
            assert(t[i] == s[i + 1] && t[j] == s[j + 1]);
        }
        lemma_sorted_distinct(t, key);
        let other = |a: A| key(a) != key(x);
        assert forall|i: int| 0 <= i < t.len() implies other(#[trigger] t[i]) by {
            assert(t[i] == s[i + 1]);
            assert(key(s[0]) != key(s[i + 1]));
        }
        lemma_sorted_keeps(t, key, other);
        let r = sorted(t, key);
        let at = lemma_insert_front_shape(x, r, key);
        let out = r.insert(at, x);
        assert forall|i: int, j: int| 0 <= i < j < out.len() implies key_before(
            #[trigger] key(out[i]),
            #[trigger] key(out[j]),
        ) by {
            if j == at {
                assert(out[i] == r[i]);
            } else if i == at {
                assert(out[j] == r[j - 1]);
                assert(other(r[at]));
                lemma_key_order(key(x), key(r[at]), key(r[j - 1]));
                if j - 1 > at {
                    assert(key_before(key(r[at]), key(r[j - 1])));
                }
            } else {
                let i0 = if i < at { i } else { i - 1 };
                let j0 = if j < at { j } else { j - 1 };
                assert(out[i] == r[i0]);
                assert(out[j] == r[j0]);
                assert(key_before(key(r[i0]), key(r[j0])));
            }
        }
    }
}

/// A record that can be put in order: it has a key, and can tell whether it
/// comes before another.
pub trait Record: Sized {
    spec fn key(&self) -> SortKey;

    fn sorts_before(&self, other: &Self) -> (r: bool)
        ensures
            r == key_before(self.key(), other.key()),
    ;
}

/// The key of a record, as a function.
pub open spec fn record_key<T: Record>() -> spec_fn(T) -> SortKey {
    |t: T| t.key()
}

/// Puts the records in the order of their keys. Records with equal keys keep
/// their order.
pub fn sort_records<T: Record>(v: Vec<T>) -> (out: Vec<T>)
    ensures
        out@ == sorted(v@, record_key::<T>()),
{
    let ghost orig = v@;
    let ghost key = record_key::<T>();
    let mut v = v;
    let mut out: Vec<T> = Vec::new();
    assert(orig.subrange(orig.len() as int, orig.len() as int) =~= Seq::<T>::empty());
    while v.len() > 0
        invariant
            v@ == orig.subrange(0, v.len() as int),
            v.len() <= orig.len(),
            key == record_key::<T>(),
            out@ == sorted(orig.subrange(v.len() as int, orig.len() as int), key),
        decreases v.len(),
    {
        let ghost n = v.len() as int;
        let x = v.pop().unwrap();
        assert(x == orig[n - 1]);
        assert(v@ =~= orig.subrange(0, n - 1));
        let ghost rest = orig.subrange(n, orig.len() as int);
        assert(orig.subrange(n - 1, orig.len() as int).drop_first() =~= rest);
        let mut j: usize = 0;
        while j < out.len() && out[j].sorts_before(&x)
            invariant
                j <= out.len(),
                key == record_key::<T>(),
                forall|i: int| 0 <= i < j ==> key_before(#[trigger] key(out@[i]), key(x)),
            decreases out.len() - j,
        {
            j = j + 1;
        }
        proof {
            lemma_insert_front_at(x, out@, key, j as int);
        }
        out.insert(j, x);
    }
    assert(orig.subrange(0, orig.len() as int) =~= orig);
    out
}

} // verus!
