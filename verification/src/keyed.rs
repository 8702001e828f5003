//! Collections of items identified by a textual key, where a later item
//! replaces an earlier one with the same key.
//!
//! These stand for the `HashMap<&str, &T>` that the schema builds from its
//! groups: the model keeps the order in which keys first appear, and the
//! value that was inserted last for each key.
use vstd::prelude::*;

verus! {

/// Items that carry a textual key.
pub trait KeyView {
    /// The key of the item, as text.
    spec fn key_view(&self) -> Seq<char>;
}

/// Items whose key can be read at run time.
pub trait Keyed: KeyView {
    /// The key of the item.
    fn key(&self) -> (k: &String)
        ensures
            k@ == self.key_view(),
    ;
}

impl<T> KeyView for (Seq<char>, T) {
    open spec fn key_view(&self) -> Seq<char> {
        self.0
    }
}

impl<T> KeyView for (String, T) {
    open spec fn key_view(&self) -> Seq<char> {
        self.0@
    }
}

impl<T> Keyed for (String, T) {
    fn key(&self) -> (k: &String) {
        &self.0
    }
}

/// The items behind a sequence of references.
pub open spec fn derefs<T>(s: Seq<&T>) -> Seq<T> {
    s.map_values(|x: &T| *x)
}

/// The last position of an item with key `k` in `s`, or -1 when there is none.
pub open spec fn index_of_key<T: KeyView>(s: Seq<T>, k: Seq<char>) -> int
    decreases s.len(),
{
    if s.len() == 0 {
        -1
    } else if s.last().key_view() == k {
        s.len() - 1
    } else {
        index_of_key(s.drop_last(), k)
    }
}

/// Whether some item of `s` has key `k`.
pub open spec fn has_key<T: KeyView>(s: Seq<T>, k: Seq<char>) -> bool {
    index_of_key(s, k) >= 0
}

/// Inserts `x` into the keyed sequence `d`: it replaces the item with the same
/// key in place, or is appended when the key is new.
pub open spec fn keyed_insert<T: KeyView>(d: Seq<T>, x: T) -> Seq<T> {
    let i = index_of_key(d, x.key_view());
    if i >= 0 {
        d.update(i, x)
    } else {
        d.push(x)
    }
}

/// Inserts the items of `s` one after the other into an empty keyed sequence.
pub open spec fn keyed_collect<T: KeyView>(s: Seq<T>) -> Seq<T>
    decreases s.len(),
{
    if s.len() == 0 {
        seq![]
    } else {
        keyed_insert(keyed_collect(s.drop_last()), s.last())
    }
}

/// Collecting one more item inserts it into what was collected before.
pub proof fn lemma_keyed_collect_push<T: KeyView>(s: Seq<T>, x: T)
    ensures
        keyed_collect(s.push(x)) == keyed_insert(keyed_collect(s), x),
{
    assert(s.push(x).drop_last() =~= s);
}

/// Inserting keeps a property that every item has, when `x` has it too.
pub proof fn lemma_keyed_insert_preserves<T: KeyView>(d: Seq<T>, x: T, p: spec_fn(T) -> bool)
    requires
        forall|i: int| 0 <= i < d.len() ==> #[trigger] p(d[i]),
        p(x),
    ensures
        forall|i: int| 0 <= i < keyed_insert(d, x).len() ==> #[trigger] p(keyed_insert(d, x)[i]),
{
    lemma_index_of_key(d, x.key_view());
    let r = keyed_insert(d, x);
    assert forall|i: int| 0 <= i < r.len() implies #[trigger] p(r[i]) by {
        if i < d.len() && r[i] != x {
            assert(r[i] == d[i]);
        }
    }
}

/// Every item of a collected sequence has each property that every item of its
/// source has: collecting keeps items, it makes none.
pub proof fn lemma_keyed_collect_preserves<T: KeyView>(s: Seq<T>, p: spec_fn(T) -> bool)
    requires
        forall|i: int| 0 <= i < s.len() ==> #[trigger] p(s[i]),
    ensures
        forall|i: int| 0 <= i < keyed_collect(s).len() ==> #[trigger] p(keyed_collect(s)[i]),
    decreases s.len(),
{
    if s.len() > 0 {
        let q = s.drop_last();
        assert forall|i: int| 0 <= i < q.len() implies #[trigger] p(q[i]) by {
            assert(q[i] == s[i]);
        }
        lemma_keyed_collect_preserves(q, p);
        lemma_keyed_insert_preserves(keyed_collect(q), s.last(), p);
    }
}

/// No two items of `s` have the same key.
pub open spec fn distinct_keys<T: KeyView>(s: Seq<T>) -> bool {
    forall|i: int, j: int|
        0 <= i < s.len() && 0 <= j < s.len() && i != j ==> #[trigger] s[i].key_view()
            != #[trigger] s[j].key_view()
}

/// What `index_of_key` finds.
pub proof fn lemma_index_of_key<T: KeyView>(s: Seq<T>, k: Seq<char>)
    ensures
        -1 <= index_of_key(s, k) < s.len(),
        index_of_key(s, k) >= 0 ==> s[index_of_key(s, k)].key_view() == k,
        forall|j: int| index_of_key(s, k) < j < s.len() ==> #[trigger] s[j].key_view() != k,
    decreases s.len(),
{
    if s.len() > 0 && s.last().key_view() != k {
        lemma_index_of_key(s.drop_last(), k);
        assert forall|j: int| index_of_key(s, k) < j < s.len() implies #[trigger] s[j].key_view()
            != k by {
            if j < s.len() - 1 {
                assert(s[j] == s.drop_last()[j]);
            }
        }
    }
}

/// In a sequence with distinct keys, the key of the item at `i` is found at `i`.
pub proof fn lemma_index_of_own_key<T: KeyView>(s: Seq<T>, i: int)
    requires
        distinct_keys(s),
        0 <= i < s.len(),
    ensures
        index_of_key(s, s[i].key_view()) == i,
{
    lemma_index_of_key(s, s[i].key_view());
    let j = index_of_key(s, s[i].key_view());
    if j != i {
        assert(s[j].key_view() == s[i].key_view());
    }
}

/// Inserting keeps the keys distinct, and adds exactly the key of `x`.
pub proof fn lemma_keyed_insert<T: KeyView>(d: Seq<T>, x: T)
    requires
        distinct_keys(d),
    ensures
        distinct_keys(keyed_insert(d, x)),
        forall|k: Seq<char>|
            #[trigger] has_key(keyed_insert(d, x), k) <==> (has_key(d, k) || k == x.key_view()),
{
    lemma_index_of_key(d, x.key_view());
    let r = keyed_insert(d, x);
    assert forall|k: Seq<char>| #[trigger] has_key(r, k) <==> (has_key(d, k) || k == x.key_view()) by {
        lemma_index_of_key(d, k);
        lemma_index_of_key(r, k);
        if has_key(d, k) {
            let i = index_of_key(d, k);
            if index_of_key(d, x.key_view()) >= 0 {
                assert(r[i].key_view() == k || r[i] == x);
            } else {
                assert(r[i] == d[i]);
            }
        }
        if k == x.key_view() {
            if index_of_key(d, x.key_view()) >= 0 {
                assert(r[index_of_key(d, x.key_view())] == x);
            } else {
                assert(r[d.len() as int] == x);
            }
        }
        if has_key(r, k) {
            let i = index_of_key(r, k);
            if r[i] != x {
                assert(r[i] == d[i]);
                lemma_index_of_key(d, k);
                if !has_key(d, k) {
                    assert(d[i].key_view() == k);
                }
            }
        }
    }
}

/// The keys of a collected sequence are distinct, and they are the keys of its source.
pub proof fn lemma_keyed_collect<T: KeyView>(s: Seq<T>)
    ensures
        distinct_keys(keyed_collect(s)),
        keyed_collect(s).len() <= s.len(),
        forall|k: Seq<char>| #[trigger]
            has_key(keyed_collect(s), k) <==> exists|i: int|
                0 <= i < s.len() && #[trigger] s[i].key_view() == k,
    decreases s.len(),
{
    if s.len() == 0 {
        assert forall|k: Seq<char>| #[trigger]
            has_key(keyed_collect(s), k) <==> exists|i: int|
                0 <= i < s.len() && #[trigger] s[i].key_view() == k by {}
    } else {
        let p = s.drop_last();
        lemma_keyed_collect(p);
        lemma_keyed_insert(keyed_collect(p), s.last());
        lemma_index_of_key(keyed_collect(p), s.last().key_view());
        assert forall|k: Seq<char>| #[trigger]
            has_key(keyed_collect(s), k) <==> exists|i: int|
                0 <= i < s.len() && #[trigger] s[i].key_view() == k by {
            assert(has_key(keyed_collect(s), k) <==> (has_key(keyed_collect(p), k) || k
                == s.last().key_view()));
            if exists|i: int| 0 <= i < s.len() && #[trigger] s[i].key_view() == k {
                let i = choose|i: int| 0 <= i < s.len() && #[trigger] s[i].key_view() == k;
                if i < s.len() - 1 {
                    assert(p[i].key_view() == k);
                }
            }
            if has_key(keyed_collect(p), k) {
                let i = choose|i: int| 0 <= i < p.len() && #[trigger] p[i].key_view() == k;
                assert(s[i].key_view() == k);
            }
            if k == s.last().key_view() {
                assert(s[s.len() - 1].key_view() == k);
            }
        }
    }
}

/// The last position of an item whose key is `k`.
pub fn find_by_key<'a, T: Keyed>(d: &Vec<&'a T>, k: &String) -> (r: Option<usize>)
    ensures
        match r {
            Some(i) => i == index_of_key(derefs(d@), k@) && i < d@.len(),
            None => index_of_key(derefs(d@), k@) == -1,
        },
{
    let ghost s = derefs(d@);
    let mut n = d.len();
    assert(s.take(n as int) =~= s);
    while n > 0
        invariant
            n <= d@.len(),
            s == derefs(d@),
            index_of_key(s, k@) == index_of_key(s.take(n as int), k@),
        decreases n,
    {
        let x: &T = d[n - 1];
        let xk = x.key();
        let ghost t = s.take(n as int);
        assert(t.last() == *x);
        if *xk == *k {
            return Some(n - 1);
        }
        assert(t.drop_last() =~= s.take(n - 1));
        n = n - 1;
    }
    None
}

/// Inserts `x`, replacing the item with the same key in place.
pub fn insert_by_key<'a, T: Keyed>(d: &mut Vec<&'a T>, x: &'a T)
    ensures
        derefs(final(d)@) == keyed_insert(derefs(old(d)@), *x),
{
    proof {
        assert(derefs(d@).take(d@.len() as int) =~= derefs(d@));
    }
    match find_by_key(d, x.key()) {
        Some(i) => {
            d.set(i, x);
            assert(derefs(d@) =~= derefs(old(d)@).update(i as int, *x));
        },
        None => {
            d.push(x);
            assert(derefs(d@) =~= derefs(old(d)@).push(*x));
        },
    }
}

/// The last position of an item whose key is `k`.
pub fn find_owned_by_key<T: Keyed>(d: &Vec<T>, k: &String) -> (r: Option<usize>)
    ensures
        match r {
            Some(i) => i == index_of_key(d@, k@) && i < d@.len(),
            None => index_of_key(d@, k@) == -1,
        },
{
    let mut n = d.len();
    assert(d@.take(n as int) =~= d@);
    while n > 0
        invariant
            n <= d@.len(),
            index_of_key(d@, k@) == index_of_key(d@.take(n as int), k@),
        decreases n,
    {
        let xk = d[n - 1].key();
        let ghost t = d@.take(n as int);
        assert(t.last() == d@[n - 1]);
        if *xk == *k {
            return Some(n - 1);
        }
        assert(t.drop_last() =~= d@.take(n - 1));
        n = n - 1;
    }
    None
}

/// Inserts `x`, replacing the item with the same key in place.
pub fn insert_owned_by_key<T: Keyed>(d: &mut Vec<T>, x: T)
    ensures
        final(d)@ == keyed_insert(old(d)@, x),
{
    match find_owned_by_key(d, x.key()) {
        Some(i) => {
            d.set(i, x);
        },
        None => {
            d.push(x);
        },
    }
}

/// Mapping every item through a function that keeps keys commutes with
/// looking a key up.
pub proof fn lemma_map_index_of_key<T: KeyView, U: KeyView>(s: Seq<T>, f: spec_fn(T) -> U, k: Seq<char>)
    requires
        forall|x: T| #[trigger] f(x).key_view() == x.key_view(),
    ensures
        index_of_key(s.map_values(f), k) == index_of_key(s, k),
    decreases s.len(),
{
    if s.len() > 0 {
        assert(s.map_values(f).drop_last() =~= s.drop_last().map_values(f));
        assert(s.map_values(f).last() == f(s.last()));
        lemma_map_index_of_key(s.drop_last(), f, k);
    }
}

/// Mapping every item through a function that keeps keys commutes with
/// keyed insertion.
pub proof fn lemma_map_keyed_insert<T: KeyView, U: KeyView>(d: Seq<T>, x: T, f: spec_fn(T) -> U)
    requires
        forall|y: T| #[trigger] f(y).key_view() == y.key_view(),
    ensures
        keyed_insert(d, x).map_values(f) == keyed_insert(d.map_values(f), f(x)),
{
    lemma_map_index_of_key(d, f, x.key_view());
    let i = index_of_key(d, x.key_view());
    if i >= 0 {
        lemma_index_of_key(d, x.key_view());
        assert(keyed_insert(d, x).map_values(f) =~= keyed_insert(d.map_values(f), f(x)));
    } else {
        assert(keyed_insert(d, x).map_values(f) =~= keyed_insert(d.map_values(f), f(x)));
    }
}

} // verus!
