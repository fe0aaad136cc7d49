//! Association lists with unique keys: the mathematical account of the
//! registry's maps, with lookup, insertion, update and removal lemmas.
use vstd::prelude::*;

verus! {

/// No two entries share a key.
pub open spec fn keys_unique<K: View, V>(m: Seq<(K, V)>) -> bool {
    forall|i: int, j: int|
        0 <= i < j < m.len() ==> (#[trigger] m[i]).0@ != (#[trigger] m[j]).0@
}

/// Some entry has key `k`.
pub open spec fn has_key<K: View, V>(m: Seq<(K, V)>, k: K::V) -> bool {
    exists|i: int| 0 <= i < m.len() && (#[trigger] m[i]).0@ == k
}

/// The value of the first entry with key `k`.
pub open spec fn spec_get<K: View, V>(m: Seq<(K, V)>, k: K::V) -> Option<V>
    decreases m.len(),
{
    if m.len() == 0 {
        None
    } else if m[0].0@ == k {
        Some(m[0].1)
    } else {
        spec_get(m.drop_first(), k)
    }
}

pub proof fn lemma_get_some_iff_has_key<K: View, V>(m: Seq<(K, V)>, k: K::V)
    ensures
        (spec_get(m, k) is Some) <==> has_key(m, k),
    decreases m.len(),
{
    if m.len() == 0 {
        assert(!has_key(m, k));
    } else if m[0].0@ == k {
        assert(has_key(m, k));
    } else {
        lemma_get_some_iff_has_key(m.drop_first(), k);
        assert forall|i: int| 0 <= i < m.len() && (#[trigger] m[i]).0@ == k implies has_key(
            m.drop_first(),
            k,
        ) by {
            assert(m.drop_first()[i - 1] == m[i]);
        }
        assert forall|i: int|
            0 <= i < m.drop_first().len() && (#[trigger] m.drop_first()[i]).0@ == k implies has_key(
            m,
            k,
        ) by {
            assert(m[i + 1] == m.drop_first()[i]);
        }
    }
}

pub proof fn lemma_get_at_index<K: View, V>(m: Seq<(K, V)>, k: K::V, i: int)
    requires
        keys_unique(m),
        0 <= i < m.len(),
        m[i].0@ == k,
    ensures
        spec_get(m, k) == Some(m[i].1),
    decreases m.len(),
{
    if i == 0 {
    } else {
        assert(m[0].0@ != k);
        assert(m.drop_first()[i - 1] == m[i]);
        assert(keys_unique(m.drop_first())) by {
            assert forall|a: int, b: int|
                0 <= a < b < m.drop_first().len() implies (#[trigger] m.drop_first()[a]).0@ != (
            #[trigger] m.drop_first()[b]).0@ by {
                assert(m.drop_first()[a] == m[a + 1]);
                assert(m.drop_first()[b] == m[b + 1]);
            }
        }
        lemma_get_at_index(m.drop_first(), k, i - 1);
    }
}

pub proof fn lemma_unique_drop_first<K: View, V>(m: Seq<(K, V)>)
    requires
        keys_unique(m),
        m.len() > 0,
    ensures
        keys_unique(m.drop_first()),
{
    assert forall|a: int, b: int|
        0 <= a < b < m.drop_first().len() implies (#[trigger] m.drop_first()[a]).0@ != (
    #[trigger] m.drop_first()[b]).0@ by {
        assert(m.drop_first()[a] == m[a + 1]);
        assert(m.drop_first()[b] == m[b + 1]);
    }
}

pub proof fn lemma_get_push<K: View, V>(m: Seq<(K, V)>, p: (K, V), k: K::V)
    ensures
        spec_get(m.push(p), k) == (if has_key(m, k) {
            spec_get(m, k)
        } else if p.0@ == k {
            Some(p.1)
        } else {
            None
        }),
    decreases m.len(),
{
    lemma_get_some_iff_has_key(m, k);
    if m.len() == 0 {
        assert(!has_key(m, k));
        assert(m.push(p)[0] == p);
        assert(m.push(p).drop_first() =~= Seq::<(K, V)>::empty());
        assert(spec_get(Seq::<(K, V)>::empty(), k) is None);
    } else {
        assert(m.push(p)[0] == m[0]);
        if m[0].0@ == k {
        } else {
            assert(m.push(p).drop_first() =~= m.drop_first().push(p));
            lemma_get_push(m.drop_first(), p, k);
            lemma_get_some_iff_has_key(m.drop_first(), k);
            assert forall|i: int| 0 <= i < m.len() && (#[trigger] m[i]).0@ == k implies has_key(
                m.drop_first(),
                k,
            ) by {
                assert(m.drop_first()[i - 1] == m[i]);
            }
            assert forall|i: int|
                0 <= i < m.drop_first().len() && (#[trigger] m.drop_first()[i]).0@
                == k implies has_key(m, k) by {
                assert(m[i + 1] == m.drop_first()[i]);
            }
        }
    }
}

pub proof fn lemma_unique_push<K: View, V>(m: Seq<(K, V)>, p: (K, V))
    requires
        keys_unique(m),
        !has_key(m, p.0@),
    ensures
        keys_unique(m.push(p)),
{
    assert forall|i: int, j: int|
        0 <= i < j < m.push(p).len() implies (#[trigger] m.push(p)[i]).0@ != (
    #[trigger] m.push(p)[j]).0@ by {
        if j == m.len() {
            assert(m.push(p)[i] == m[i]);
        } else {
            assert(m.push(p)[i] == m[i]);
            assert(m.push(p)[j] == m[j]);
        }
    }
}

pub proof fn lemma_get_remove<K: View, V>(m: Seq<(K, V)>, i: int, k: K::V)
    requires
        keys_unique(m),
        0 <= i < m.len(),
    ensures
        spec_get(m.remove(i), k) == (if m[i].0@ == k {
            None
        } else {
            spec_get(m, k)
        }),
        keys_unique(m.remove(i)),
    decreases m.len(),
{
    let r = m.remove(i);
    assert(keys_unique(r)) by {
        assert forall|a: int, b: int|
            0 <= a < b < r.len() implies (#[trigger] r[a]).0@ != (#[trigger] r[b]).0@ by {
            let a0 = if a < i { a } else { a + 1 };
            let b0 = if b < i { b } else { b + 1 };
            assert(r[a] == m[a0]);
            assert(r[b] == m[b0]);
        }
    }
    if i == 0 {
        assert(r =~= m.drop_first());
        if m[0].0@ == k {
            lemma_get_some_iff_has_key(m.drop_first(), k);
            if has_key(m.drop_first(), k) {
                let w = choose|t: int|
                    0 <= t < m.drop_first().len() && (#[trigger] m.drop_first()[t]).0@ == k;
                assert(m.drop_first()[w] == m[w + 1]);
                assert(false);
            }
        }
    } else {
        assert(r[0] == m[0]);
        lemma_unique_drop_first(m);
        if m[0].0@ == k {
        } else {
            assert(r.drop_first() =~= m.drop_first().remove(i - 1));
            assert(m.drop_first()[i - 1] == m[i]);
            lemma_get_remove(m.drop_first(), i - 1, k);
        }
    }
}

pub proof fn lemma_get_update<K: View, V>(m: Seq<(K, V)>, i: int, v: V, k: K::V)
    requires
        keys_unique(m),
        0 <= i < m.len(),
    ensures
        spec_get(m.update(i, (m[i].0, v)), k) == (if m[i].0@ == k {
            Some(v)
        } else {
            spec_get(m, k)
        }),
        keys_unique(m.update(i, (m[i].0, v))),
    decreases m.len(),
{
    let r = m.update(i, (m[i].0, v));
    assert(r.len() == m.len());
    assert(keys_unique(r)) by {
        assert forall|a: int, b: int|
            0 <= a < b < r.len() implies (#[trigger] r[a]).0@ != (#[trigger] r[b]).0@ by {
            assert(r[a].0@ == m[a].0@);
            assert(r[b].0@ == m[b].0@);
        }
    }
    if i == 0 {
        if m[0].0@ == k {
            assert(r[0] == (m[0].0, v));
        } else {
            assert(r.drop_first() =~= m.drop_first());
        }
    } else {
        assert(r[0] == m[0]);
        lemma_unique_drop_first(m);
        if m[0].0@ == k {
            lemma_get_at_index(m, k, 0);
        } else {
            assert(r.drop_first() =~= m.drop_first().update(i - 1, (m.drop_first()[i - 1].0, v)));
            assert(m.drop_first()[i - 1] == m[i]);
            lemma_get_update(m.drop_first(), i - 1, v, k);
        }
    }
}

/// Index of the first entry keyed `k`, scanning a string-keyed list.
pub fn find_idx_str<V>(m: &Vec<(String, V)>, k: &str) -> (r: Option<usize>)
    ensures
        match r {
            Some(i) => i < m@.len() && m@[i as int].0@ == k@ && forall|j: int|
                0 <= j < i ==> (#[trigger] m@[j]).0@ != k@,
            None => !has_key(m@, k@),
        },
{
    let ks: String = k.to_owned();
    let n = m.len();
    let mut i: usize = 0;
    while i < n
        invariant
            i <= n,
            n == m@.len(),
            ks@ == k@,
            forall|j: int| 0 <= j < i ==> (#[trigger] m@[j]).0@ != k@,
        decreases n - i,
    {
        if m[i].0 == ks {
            return Some(i);
        }
        i += 1;
    }
    None
}

/// Index of the first occurrence of `x` in a list of integers.
pub fn find_val_u32(l: &Vec<u32>, x: u32) -> (r: Option<usize>)
    ensures
        match r {
            Some(i) => i < l@.len() && l@[i as int] == x,
            None => !l@.contains(x),
        },
{
    let n = l.len();
    let mut i: usize = 0;
    while i < n
        invariant
            i <= n,
            n == l@.len(),
            forall|j: int| 0 <= j < i ==> l@[j] != x,
        decreases n - i,
    {
        if l[i] == x {
            return Some(i);
        }
        i += 1;
    }
    None
}

/// Index of the first entry keyed `k`, scanning an integer-keyed list.
pub fn find_idx_u32<V>(m: &Vec<(u32, V)>, k: u32) -> (r: Option<usize>)
    ensures
        match r {
            Some(i) => i < m@.len() && m@[i as int].0 == k && forall|j: int|
                0 <= j < i ==> (#[trigger] m@[j]).0 != k,
            None => !has_key(m@, k),
        },
{
    let n = m.len();
    let mut i: usize = 0;
    while i < n
        invariant
            i <= n,
            n == m@.len(),
            forall|j: int| 0 <= j < i ==> (#[trigger] m@[j]).0 != k,
        decreases n - i,
    {
        if m[i].0 == k {
            return Some(i);
        }
        i += 1;
    }
    None
}

} // verus!
