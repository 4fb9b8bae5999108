//! Key-sorted association lists. Every mapping of the library (state
//! fields, link relations, embedded relations, JSON objects) is a
//! vector of pairs whose keys are strictly increasing in the order
//! [`crate::lexical::lex_lt`]; inserting sorts and overwrites, as a
//! key-ordered map would.

use vstd::prelude::*;

use crate::lexical::{lex_leq, lex_lt, lemma_lex_lt_irreflexive, lemma_lex_lt_transitive,
    lemma_lex_trichotomy, str_compare, Cmp};

verus! {

/// The specification model of an association list: a sequence of
/// key/value pairs with keys as character sequences.
pub open spec fn entries_dv<T: DeepView>(s: Seq<(String, T)>) -> Seq<(Seq<char>, T::V)> {
    s.map(|i: int, e: (String, T)| (e.0.deep_view(), e.1.deep_view()))
}

/// Keys appear in strictly increasing lexicographic order.
pub open spec fn assoc_sorted<V>(s: Seq<(Seq<char>, V)>) -> bool {
    forall|i: int, j: int| 0 <= i < j < s.len() ==> lex_lt(s[i].0, s[j].0)
}

pub open spec fn assoc_has_key<V>(s: Seq<(Seq<char>, V)>, k: Seq<char>) -> bool {
    exists|i: int| 0 <= i < s.len() && s[i].0 == k
}

/// The value bound to `k`: the first pair whose key is `k`.
pub open spec fn assoc_get<V>(s: Seq<(Seq<char>, V)>, k: Seq<char>) -> Option<V>
    decreases s.len(),
{
    if s.len() == 0 {
        None
    } else if s[0].0 == k {
        Some(s[0].1)
    } else {
        assoc_get(s.drop_first(), k)
    }
}

/// Insertion in key order; an existing binding of `k` is replaced.
pub open spec fn assoc_set<V>(s: Seq<(Seq<char>, V)>, k: Seq<char>, v: V) -> Seq<
    (Seq<char>, V),
>
    decreases s.len(),
{
    if s.len() == 0 {
        seq![(k, v)]
    } else if lex_lt(k, s[0].0) {
        seq![(k, v)] + s
    } else if k == s[0].0 {
        seq![(k, v)] + s.drop_first()
    } else {
        seq![s[0]] + assoc_set(s.drop_first(), k, v)
    }
}

/// Append `v` to the sequence bound to `k`, starting a one-element
/// sequence if `k` is unbound.
pub open spec fn assoc_append<V>(s: Seq<(Seq<char>, Seq<V>)>, k: Seq<char>, v: V) -> Seq<
    (Seq<char>, Seq<V>),
> {
    match assoc_get(s, k) {
        Some(vs) => assoc_set(s, k, vs.push(v)),
        None => assoc_set(s, k, seq![v]),
    }
}

pub proof fn lemma_assoc_set_has_key<V>(s: Seq<(Seq<char>, V)>, k: Seq<char>, v: V, q: Seq<char>)
    ensures
        assoc_has_key(assoc_set(s, k, v), q) <==> (q == k || assoc_has_key(s, q)),
    decreases s.len(),
{
    let r = assoc_set(s, k, v);
    if s.len() == 0 {
        assert(r[0].0 == k);
        if assoc_has_key(r, q) && q != k {
            let i = choose|i: int| 0 <= i < r.len() && r[i].0 == q;
            assert(i == 0);
            assert(false);
        }
    } else if lex_lt(k, s[0].0) {
        assert(r[0].0 == k);
        assert forall|i: int| 0 <= i < s.len() implies r[i + 1] == s[i] by {}
        if assoc_has_key(s, q) {
            let i = choose|i: int| 0 <= i < s.len() && s[i].0 == q;
            assert(r[i + 1].0 == q);
        }
        if assoc_has_key(r, q) && q != k {
            let i = choose|i: int| 0 <= i < r.len() && r[i].0 == q;
            assert(s[i - 1].0 == q);
        }
    } else if k == s[0].0 {
        assert(r[0].0 == k);
        if assoc_has_key(s, q) && q != k {
            let i = choose|i: int| 0 <= i < s.len() && s[i].0 == q;
            assert(i != 0);
            assert(r[i] == s.drop_first()[i - 1]);
            assert(r[i].0 == q);
        }
        if assoc_has_key(r, q) && q != k {
            let i = choose|i: int| 0 <= i < r.len() && r[i].0 == q;
            assert(i != 0);
            assert(s[i] == s.drop_first()[i - 1]);
            assert(s[i].0 == q);
        }
    } else {
        lemma_assoc_set_has_key(s.drop_first(), k, v, q);
        let rest = assoc_set(s.drop_first(), k, v);
        assert forall|i: int| 0 <= i < rest.len() implies r[i + 1] == rest[i] by {}
        if q == k {
            assert(assoc_has_key(rest, q));
            let i = choose|i: int| 0 <= i < rest.len() && rest[i].0 == q;
            assert(r[i + 1].0 == q);
        }
        if q == s[0].0 {
            assert(r[0].0 == q);
            assert(s[0].0 == q);
        } else {
            if assoc_has_key(s, q) {
                let i = choose|i: int| 0 <= i < s.len() && s[i].0 == q;
                assert(i != 0);
                assert(s.drop_first()[i - 1].0 == q);
                assert(assoc_has_key(s.drop_first(), q));
                let i2 = choose|i2: int| 0 <= i2 < rest.len() && rest[i2].0 == q;
                assert(r[i2 + 1].0 == q);
            }
            if assoc_has_key(r, q) && q != k {
                let i = choose|i: int| 0 <= i < r.len() && r[i].0 == q;
                assert(i != 0);
                assert(rest[i - 1].0 == q);
                assert(assoc_has_key(rest, q));
                let j = choose|j: int| 0 <= j < s.drop_first().len() && s.drop_first()[j].0 == q;
                assert(s[j + 1].0 == q);
            }
        }
    }
}

pub proof fn lemma_assoc_set_sorted<V>(s: Seq<(Seq<char>, V)>, k: Seq<char>, v: V)
    requires
        assoc_sorted(s),
    ensures
        assoc_sorted(assoc_set(s, k, v)),
    decreases s.len(),
{
    let r = assoc_set(s, k, v);
    if s.len() == 0 {
    } else if lex_lt(k, s[0].0) {
        assert forall|i: int, j: int| 0 <= i < j < r.len() implies lex_lt(r[i].0, r[j].0) by {
            if i == 0 && j > 1 {
                lemma_lex_lt_transitive(k, s[0].0, s[j - 1].0);
            }
        }
    } else if k == s[0].0 {
        assert forall|i: int, j: int| 0 <= i < j < r.len() implies lex_lt(r[i].0, r[j].0) by {
            assert(r[j] == s[j]);
            if i > 0 {
                assert(r[i] == s[i]);
            }
        }
    } else {
        lemma_lex_trichotomy(k, s[0].0);
        assert(lex_lt(s[0].0, k));
        lemma_assoc_set_sorted(s.drop_first(), k, v);
        let rest = assoc_set(s.drop_first(), k, v);
        assert forall|i: int, j: int| 0 <= i < j < r.len() implies lex_lt(r[i].0, r[j].0) by {
            if i == 0 {
                lemma_assoc_set_has_key(s.drop_first(), k, v, r[j].0);
                assert(rest[j - 1] == r[j]);
                if r[j].0 == k {
                } else {
                    let m = choose|m: int|
                        0 <= m < s.drop_first().len() && s.drop_first()[m].0 == r[j].0;
                    assert(s[m + 1].0 == r[j].0);
                }
            } else {
                assert(r[i] == rest[i - 1]);
                assert(r[j] == rest[j - 1]);
            }
        }
    }
}

pub proof fn lemma_assoc_get_has_key<V>(s: Seq<(Seq<char>, V)>, k: Seq<char>)
    ensures
        assoc_get(s, k) is Some <==> assoc_has_key(s, k),
    decreases s.len(),
{
    if s.len() > 0 {
        if s[0].0 == k {
        } else {
            lemma_assoc_get_has_key(s.drop_first(), k);
            if assoc_has_key(s, k) {
                let i = choose|i: int| 0 <= i < s.len() && s[i].0 == k;
                assert(i != 0);
                assert(s.drop_first()[i - 1].0 == k);
            }
            if assoc_has_key(s.drop_first(), k) {
                let i = choose|i: int|
                    0 <= i < s.drop_first().len() && s.drop_first()[i].0 == k;
                assert(s[i + 1].0 == k);
            }
        }
    }
}

pub proof fn lemma_assoc_get_set<V>(s: Seq<(Seq<char>, V)>, k: Seq<char>, v: V, q: Seq<char>)
    requires
        assoc_sorted(s),
    ensures
        assoc_get(assoc_set(s, k, v), q) == (if q == k {
            Some(v)
        } else {
            assoc_get(s, q)
        }),
    decreases s.len(),
{
    let r = assoc_set(s, k, v);
    if s.len() == 0 {
        if q != k {
            assert(r.drop_first() =~= Seq::<(Seq<char>, V)>::empty());
        }
    } else if lex_lt(k, s[0].0) {
        if q != k {
            assert(r.drop_first() =~= s);
        }
    } else if k == s[0].0 {
        if q != k {
            assert(r.drop_first() =~= s.drop_first());
        }
    } else {
        lemma_lex_trichotomy(k, s[0].0);
        assert forall|i: int, j: int|
            0 <= i < j < s.drop_first().len() implies lex_lt(
            s.drop_first()[i].0,
            s.drop_first()[j].0,
        ) by {
            assert(s.drop_first()[i] == s[i + 1]);
            assert(s.drop_first()[j] == s[j + 1]);
        }
        lemma_assoc_get_set(s.drop_first(), k, v, q);
        assert(r.drop_first() =~= assoc_set(s.drop_first(), k, v));
        assert(r[0] == s[0]);
    }
}

pub proof fn lemma_assoc_get_set_all<V>(s: Seq<(Seq<char>, V)>, k: Seq<char>, v: V)
    requires
        assoc_sorted(s),
    ensures
        forall|q: Seq<char>| #[trigger]
            assoc_get(assoc_set(s, k, v), q) == (if q == k {
                Some(v)
            } else {
                assoc_get(s, q)
            }),
{
    assert forall|q: Seq<char>| #[trigger]
        assoc_get(assoc_set(s, k, v), q) == (if q == k {
            Some(v)
        } else {
            assoc_get(s, q)
        }) by {
        lemma_assoc_get_set(s, k, v, q);
    }
}

/// A property of the values is kept by insertion.
pub proof fn lemma_assoc_set_values<V>(
    s: Seq<(Seq<char>, V)>,
    k: Seq<char>,
    v: V,
    p: spec_fn(V) -> bool,
)
    requires
        assoc_sorted(s),
        forall|i: int| 0 <= i < s.len() ==> p(#[trigger] s[i].1),
        p(v),
    ensures
        forall|i: int| 0 <= i < assoc_set(s, k, v).len() ==> p(#[trigger] assoc_set(s, k, v)[i].1),
{
    let r = assoc_set(s, k, v);
    lemma_assoc_set_sorted(s, k, v);
    assert forall|i: int| 0 <= i < r.len() implies p(#[trigger] r[i].1) by {
        lemma_assoc_get_at(r, i);
        lemma_assoc_get_set(s, k, v, r[i].0);
        if r[i].0 != k {
            lemma_assoc_get_index(s, r[i].0);
            let j = choose|j: int|
                0 <= j < s.len() && #[trigger] s[j] == (r[i].0, assoc_get(s, r[i].0)->Some_0);
            assert(p(s[j].1));
        }
    }
}

pub proof fn lemma_assoc_drop_sorted<V>(s: Seq<(Seq<char>, V)>)
    requires
        assoc_sorted(s),
        s.len() > 0,
    ensures
        assoc_sorted(s.drop_first()),
{
    assert forall|i: int, j: int|
        0 <= i < j < s.drop_first().len() implies lex_lt(
        s.drop_first()[i].0,
        s.drop_first()[j].0,
    ) by {
        assert(s.drop_first()[i] == s[i + 1]);
        assert(s.drop_first()[j] == s[j + 1]);
    }
}

pub proof fn lemma_assoc_get_at<V>(s: Seq<(Seq<char>, V)>, i: int)
    requires
        assoc_sorted(s),
        0 <= i < s.len(),
    ensures
        assoc_get(s, s[i].0) == Some(s[i].1),
    decreases s.len(),
{
    if i == 0 {
    } else {
        assert(lex_lt(s[0].0, s[i].0));
        lemma_lex_lt_irreflexive(s[0].0);
        lemma_assoc_drop_sorted(s);
        lemma_assoc_get_at(s.drop_first(), i - 1);
        assert(s.drop_first()[i - 1] == s[i]);
    }
}

/// A successful lookup names a pair of the list.
pub proof fn lemma_assoc_get_index<V>(s: Seq<(Seq<char>, V)>, k: Seq<char>)
    requires
        assoc_get(s, k) is Some,
    ensures
        exists|j: int| 0 <= j < s.len() && #[trigger] s[j] == (k, assoc_get(s, k)->Some_0),
    decreases s.len(),
{
    if s.len() > 0 {
        if s[0].0 == k {
            assert(s[0] == (s[0].0, s[0].1));
            assert(s[0] == (k, assoc_get(s, k)->Some_0));
        } else {
            lemma_assoc_get_index(s.drop_first(), k);
            let j = choose|j: int|
                0 <= j < s.drop_first().len() && #[trigger] s.drop_first()[j] == (
                k,
                assoc_get(s.drop_first(), k)->Some_0,
            );
            assert(s[j + 1] == s.drop_first()[j]);
        }
    }
}

pub proof fn lemma_assoc_get_none<V>(s: Seq<(Seq<char>, V)>, k: Seq<char>)
    requires
        !assoc_has_key(s, k),
    ensures
        assoc_get(s, k) is None,
{
    lemma_assoc_get_has_key(s, k);
}

/// Where `assoc_set` places its pair: before index `i` every key is
/// smaller than `k`, so the result is a replacement at `i` or a splice
/// at `i`.
pub proof fn lemma_assoc_set_at<V>(s: Seq<(Seq<char>, V)>, k: Seq<char>, v: V, i: int)
    requires
        assoc_sorted(s),
        0 <= i <= s.len(),
        forall|j: int| 0 <= j < i ==> lex_lt(s[j].0, k),
        i < s.len() ==> lex_leq(k, s[i].0),
    ensures
        i < s.len() && s[i].0 == k ==> assoc_set(s, k, v) =~= s.update(i, (k, v)),
        !(i < s.len() && s[i].0 == k) ==> assoc_set(s, k, v) =~= s.insert(i, (k, v)),
    decreases s.len(),
{
    if s.len() == 0 {
    } else if i == 0 {
        if s[0].0 == k {
            lemma_lex_lt_irreflexive(k);
            let r = assoc_set(s, k, v);
            assert(r == seq![(k, v)] + s.drop_first());
            assert forall|j: int| 0 <= j < r.len() implies r[j] == s.update(0, (k, v))[j] by {
                if j > 0 {
                    assert(r[j] == s.drop_first()[j - 1]);
                    assert(s.drop_first()[j - 1] == s[j]);
                }
            }
            assert(r =~= s.update(0, (k, v)));
        } else {
            assert(lex_lt(k, s[0].0));
        }
    } else {
        assert(lex_lt(s[0].0, k));
        lemma_lex_lt_irreflexive(s[0].0);
        if lex_lt(k, s[0].0) {
            lemma_lex_lt_transitive(k, s[0].0, k);
            lemma_lex_lt_irreflexive(k);
        }
        lemma_assoc_drop_sorted(s);
        let d = s.drop_first();
        assert forall|j: int| 0 <= j < i - 1 implies lex_lt(d[j].0, k) by {
            assert(d[j] == s[j + 1]);
        }
        if i - 1 < d.len() {
            assert(d[i - 1] == s[i]);
        }
        lemma_assoc_set_at(d, k, v, i - 1);
        let r = assoc_set(s, k, v);
        assert(r == seq![s[0]] + assoc_set(d, k, v));
        if i < s.len() && s[i].0 == k {
            let t = s.update(i, (k, v));
            assert forall|j: int| 0 <= j < r.len() implies r[j] == t[j] by {
                if j > 0 {
                    assert(r[j] == d.update(i - 1, (k, v))[j - 1]);
                    if j != i {
                        assert(d.update(i - 1, (k, v))[j - 1] == d[j - 1]);
                        assert(d[j - 1] == s[j]);
                    }
                }
            }
            assert(r =~= t);
        } else {
            let t = s.insert(i, (k, v));
            assert(assoc_set(d, k, v) =~= d.insert(i - 1, (k, v)));
            assert forall|j: int| 0 <= j < r.len() implies r[j] == t[j] by {
                assert(t[j] == s.insert(i, (k, v))[j]);
                if j > 0 {
                    assert(r[j] == d.insert(i - 1, (k, v))[j - 1]);
                    if j - 1 < i - 1 {
                        assert(d.insert(i - 1, (k, v))[j - 1] == d[j - 1]);
                        assert(d[j - 1] == s[j]);
                        assert(t[j] == s[j]);
                    } else if j - 1 == i - 1 {
                        assert(d.insert(i - 1, (k, v))[j - 1] == (k, v));
                        assert(t[j] == (k, v));
                    } else {
                        assert(d.insert(i - 1, (k, v))[j - 1] == d[j - 2]);
                        assert(d[j - 2] == s[j - 1]);
                        assert(t[j] == s[j - 1]);
                    }
                } else {
                    assert(t[0] == s[0]);
                }
            }
            assert(r =~= t);
        }
    }
}

/// Index of the first entry whose key is not below `key`.
fn lower_bound<T>(m: &Vec<(String, T)>, key: &str) -> (i: usize)
    requires
        forall|p: int, q: int| 0 <= p < q < m@.len() ==> lex_lt(m@[p].0@, m@[q].0@),
    ensures
        i <= m@.len(),
        forall|j: int| 0 <= j < i ==> lex_lt(m@[j].0@, key@),
        i < m@.len() ==> lex_leq(key@, m@[i as int].0@),
{
    let mut i: usize = 0;
    while i < m.len()
        invariant
            i <= m@.len(),
            forall|j: int| 0 <= j < i ==> lex_lt(m@[j].0@, key@),
        decreases m@.len() - i,
    {
        match str_compare(m[i].0.as_str(), key) {
            Cmp::Less => {
                i = i + 1;
            },
            _ => {
                return i;
            },
        }
    }
    i
}

/// Bind `key` to `value`, replacing an existing binding and keeping
/// the keys sorted.
pub fn set_entry<T: DeepView>(m: Vec<(String, T)>, key: &str, value: T) -> (r: Vec<(String, T)>)
    requires
        assoc_sorted(entries_dv(m@)),
    ensures
        entries_dv(r@) == assoc_set(entries_dv(m@), key@, value.deep_view()),
        assoc_sorted(entries_dv(r@)),
{
    let ghost s = entries_dv(m@);
    let ghost dv = value.deep_view();
    proof {
        assert forall|p: int, q: int|
            0 <= p < q < m@.len() implies lex_lt(m@[p].0@, m@[q].0@) by {
            assert(s[p].0 == m@[p].0@);
            assert(s[q].0 == m@[q].0@);
        }
    }
    let i = lower_bound(&m, key);
    let ghost ii = i as int;
    proof {
        assert forall|j: int| 0 <= j < ii implies lex_lt(s[j].0, key@) by {
            assert(s[j].0 == m@[j].0@);
        }
        lemma_assoc_set_at(s, key@, dv, ii);
        lemma_assoc_set_sorted(s, key@, dv);
    }
    let mut m = m;
    if i < m.len() && str_compare(m[i].0.as_str(), key) == Cmp::Equal {
        m.remove(i);
        m.insert(i, (key.to_owned(), value));
        proof {
            assert(entries_dv(m@) =~= s.update(ii, (key@, dv)));
        }
    } else {
        m.insert(i, (key.to_owned(), value));
        proof {
            assert(entries_dv(m@) =~= s.insert(ii, (key@, dv)));
        }
    }
    m
}

/// Append `item` under `key`, creating the binding if it is absent.
pub fn append_entry<T: DeepView>(m: Vec<(String, Vec<T>)>, key: &str, item: T) -> (r: Vec<
    (String, Vec<T>),
>)
    requires
        assoc_sorted(entries_dv(m@)),
    ensures
        entries_dv(r@) == assoc_append(entries_dv(m@), key@, item.deep_view()),
        assoc_sorted(entries_dv(r@)),
{
    let ghost s = entries_dv(m@);
    let ghost dv = item.deep_view();
    proof {
        assert forall|p: int, q: int|
            0 <= p < q < m@.len() implies lex_lt(m@[p].0@, m@[q].0@) by {
            assert(s[p].0 == m@[p].0@);
            assert(s[q].0 == m@[q].0@);
        }
    }
    let i = lower_bound(&m, key);
    let ghost ii = i as int;
    proof {
        assert forall|j: int| 0 <= j < ii implies lex_lt(s[j].0, key@) by {
            assert(s[j].0 == m@[j].0@);
        }
    }
    let mut m = m;
    if i < m.len() && str_compare(m[i].0.as_str(), key) == Cmp::Equal {
        let ghost old_vs = s[ii].1;
        proof {
            assert(s[ii].0 == m@[ii].0@);
            lemma_assoc_get_at(s, ii);
            lemma_assoc_set_at(s, key@, old_vs.push(dv), ii);
            lemma_assoc_set_sorted(s, key@, old_vs.push(dv));
        }
        let pair = m.remove(i);
        let k0 = pair.0;
        let mut vs = pair.1;
        vs.push(item);
        m.insert(i, (k0, vs));
        proof {
            assert(vs.deep_view() =~= old_vs.push(dv));
            assert(entries_dv(m@) =~= s.update(ii, (key@, old_vs.push(dv))));
            assert(entries_dv(m@) =~= assoc_set(s, key@, old_vs.push(dv)));
        }
    } else {
        proof {
            if assoc_has_key(s, key@) {
                let j = choose|j: int| 0 <= j < s.len() && s[j].0 == key@;
                if j < ii {
                    lemma_lex_lt_irreflexive(key@);
                } else {
                    assert(ii < s.len());
                    assert(s[ii].0 == m@[ii].0@);
                    if j == ii {
                        assert(false);
                    } else {
                        assert(lex_lt(s[ii].0, s[j].0));
                        assert(lex_lt(key@, s[ii].0));
                        lemma_lex_lt_transitive(key@, s[ii].0, s[j].0);
                        lemma_lex_lt_irreflexive(key@);
                    }
                }
            }
            lemma_assoc_get_none(s, key@);
            lemma_assoc_set_at(s, key@, seq![dv], ii);
            lemma_assoc_set_sorted(s, key@, seq![dv]);
        }
        let mut vs: Vec<T> = Vec::new();
        vs.push(item);
        m.insert(i, (key.to_owned(), vs));
        proof {
            assert(vs.deep_view() =~= seq![dv]);
            assert(entries_dv(m@) =~= s.insert(ii, (key@, seq![dv])));
        }
    }
    m
}

/// Look up the value bound to `key`.
pub fn get_entry<'a, T: DeepView>(m: &'a Vec<(String, T)>, key: &str) -> (r: Option<&'a T>)
    ensures
        match r {
            Some(v) => assoc_get(entries_dv(m@), key@) == Some(v.deep_view()),
            None => assoc_get(entries_dv(m@), key@) is None,
        },
{
    let ghost s = entries_dv(m@);
    proof {
        assert(s.skip(0) =~= s);
    }
    let mut i: usize = 0;
    while i < m.len()
        invariant
            i <= m@.len(),
            s == entries_dv(m@),
            assoc_get(s, key@) == assoc_get(s.skip(i as int), key@),
        decreases m@.len() - i,
    {
        if str_compare(m[i].0.as_str(), key) == Cmp::Equal {
            proof {
                assert(s.skip(i as int)[0] == s[i as int]);
                assert(s[i as int].0 == m@[i as int].0@);
            }
            return Some(&m[i].1);
        }
        proof {
            assert(s.skip(i as int)[0] == s[i as int]);
            assert(s[i as int].0 == m@[i as int].0@);
            assert(s.skip(i as int).drop_first() =~= s.skip(i as int + 1));
        }
        i = i + 1;
    }
    proof {
        assert(s.skip(i as int).len() == 0);
    }
    None
}

} // verus!
