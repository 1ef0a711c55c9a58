use vstd::prelude::*;

verus! {

broadcast use vstd::slice::group_slice_axioms;

// A tiny association container keyed by byte strings, the backing shape of
// every registry level (keyspaces, tables, containers). Entries are kept
// with pairwise distinct keys; `as_map` is its mathematical contents.

/// The mathematical contents of an association vector.
pub open spec fn as_map<V>(s: Seq<(Vec<u8>, V)>) -> Map<Seq<u8>, V>
    decreases s.len(),
{
    if s.len() == 0 {
        Map::empty()
    } else {
        as_map(s.drop_last()).insert(s.last().0@, s.last().1)
    }
}

/// No key occurs twice.
pub open spec fn unique_keys<V>(s: Seq<(Vec<u8>, V)>) -> bool {
    forall|i: int, j: int| 0 <= i < j < s.len() ==> (#[trigger] s[i]).0@ != (#[trigger] s[j]).0@
}

pub proof fn lemma_as_map_contains<V>(s: Seq<(Vec<u8>, V)>, k: Seq<u8>)
    ensures
        as_map(s).contains_key(k) <==> exists|i: int| 0 <= i < s.len() && (#[trigger] s[i]).0@ == k,
    decreases s.len(),
{
    if s.len() > 0 {
        lemma_as_map_contains(s.drop_last(), k);
        if s.last().0@ == k {
            assert(s[s.len() - 1].0@ == k);
        } else {
            if exists|i: int| 0 <= i < s.len() && (#[trigger] s[i]).0@ == k {
                let i = choose|i: int| 0 <= i < s.len() && (#[trigger] s[i]).0@ == k;
                assert(i < s.len() - 1);
                assert(s.drop_last()[i].0@ == k);
            }
        }
    }
}

pub proof fn lemma_as_map_index<V>(s: Seq<(Vec<u8>, V)>, i: int)
    requires
        unique_keys(s),
        0 <= i < s.len(),
    ensures
        as_map(s).contains_key(s[i].0@),
        as_map(s)[s[i].0@] == s[i].1,
    decreases s.len(),
{
    if i == s.len() - 1 {
    } else {
        assert(unique_keys(s.drop_last()));
        assert(s.drop_last()[i] == s[i]);
        lemma_as_map_index(s.drop_last(), i);
        assert(s.last().0@ != s[i].0@);
    }
}

pub proof fn lemma_as_map_push<V>(s: Seq<(Vec<u8>, V)>, k: Vec<u8>, v: V)
    ensures
        as_map(s.push((k, v))) == as_map(s).insert(k@, v),
{
    assert(s.push((k, v)).drop_last() =~= s);
}

pub proof fn lemma_as_map_update<V>(s: Seq<(Vec<u8>, V)>, i: int, v: V)
    requires
        unique_keys(s),
        0 <= i < s.len(),
    ensures
        as_map(s.update(i, (s[i].0, v))) == as_map(s).insert(s[i].0@, v),
        unique_keys(s.update(i, (s[i].0, v))),
    decreases s.len(),
{
    let t = s.update(i, (s[i].0, v));
    assert(unique_keys(t)) by {
        assert forall|x: int, y: int| 0 <= x < y < t.len() implies (#[trigger] t[x]).0@
            != (#[trigger] t[y]).0@ by {
            assert(t[x].0@ == s[x].0@);
            assert(t[y].0@ == s[y].0@);
        }
    }
    if i == s.len() - 1 {
        assert(t.drop_last() =~= s.drop_last());
        assert(as_map(t) =~= as_map(s).insert(s[i].0@, v));
    } else {
        assert(unique_keys(s.drop_last()));
        assert(s.drop_last()[i] == s[i]);
        lemma_as_map_update(s.drop_last(), i, v);
        assert(t.drop_last() =~= s.drop_last().update(i, (s[i].0, v)));
        assert(t.last() == s.last());
        assert(s.last().0@ != s[i].0@);
        assert(as_map(t) =~= as_map(s).insert(s[i].0@, v));
    }
}

pub proof fn lemma_as_map_remove<V>(s: Seq<(Vec<u8>, V)>, i: int)
    requires
        unique_keys(s),
        0 <= i < s.len(),
    ensures
        as_map(s.remove(i)) == as_map(s).remove(s[i].0@),
        unique_keys(s.remove(i)),
    decreases s.len(),
{
    let t = s.remove(i);
    assert(unique_keys(t)) by {
        assert forall|x: int, y: int| 0 <= x < y < t.len() implies (#[trigger] t[x]).0@
            != (#[trigger] t[y]).0@ by {
            let sx = if x < i {
                x
            } else {
                x + 1
            };
            let sy = if y < i {
                y
            } else {
                y + 1
            };
            assert(t[x] == s[sx]);
            assert(t[y] == s[sy]);
        }
    }
    if i == s.len() - 1 {
        assert(t =~= s.drop_last());
        lemma_as_map_contains(s.drop_last(), s[i].0@);
        assert(forall|x: int|
            0 <= x < s.drop_last().len() ==> (#[trigger] s.drop_last()[x]).0@ != s[i].0@);
        assert(!as_map(s.drop_last()).contains_key(s[i].0@));
        assert(as_map(t) =~= as_map(s).remove(s[i].0@));
    } else {
        assert(unique_keys(s.drop_last()));
        assert(s.drop_last()[i] == s[i]);
        lemma_as_map_remove(s.drop_last(), i);
        assert(t.drop_last() =~= s.drop_last().remove(i));
        assert(t.last() == s.last());
        assert(s.last().0@ != s[i].0@);
        assert(as_map(t) =~= as_map(s).remove(s[i].0@));
    }
}

/// Byte-string equality.
pub fn bytes_eq(a: &[u8], b: &[u8]) -> (r: bool)
    ensures
        r == (a@ == b@),
{
    if a.len() != b.len() {
        return false;
    }
    let mut i: usize = 0;
    while i < a.len()
        invariant
            i <= a@.len(),
            a@.len() == b@.len(),
            forall|j: int| 0 <= j < i ==> a@[j] == b@[j],
        decreases a@.len() - i,
    {
        if *vstd::slice::slice_index_get(a, i) != *vstd::slice::slice_index_get(b, i) {
            return false;
        }
        i = i + 1;
    }
    proof {
        assert(a@ =~= b@);
    }
    true
}

/// Index of the entry holding `key`, if any.
pub fn find_idx<V>(m: &Vec<(Vec<u8>, V)>, key: &[u8]) -> (r: Option<usize>)
    ensures
        match r {
            Some(i) => i < m@.len() && m@[i as int].0@ == key@,
            None => forall|i: int| 0 <= i < m@.len() ==> (#[trigger] m@[i]).0@ != key@,
        },
{
    let mut i: usize = 0;
    while i < m.len()
        invariant
            i <= m@.len(),
            forall|j: int| 0 <= j < i ==> (#[trigger] m@[j]).0@ != key@,
        decreases m@.len() - i,
    {
        if bytes_eq(m[i].0.as_slice(), key) {
            return Some(i);
        }
        i = i + 1;
    }
    None
}

} // verus!
