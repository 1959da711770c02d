//! Counting occurrences of string keys: an ordered list of `(key, count)`
//! pairs, one per distinct key, standing for a map from key to count.
use vstd::prelude::*;

verus! {

/// How many times `k` occurs in `s`.
pub open spec fn occurrences(s: Seq<Seq<char>>, k: Seq<char>) -> nat
    decreases s.len(),
{
    if s.len() == 0 {
        0
    } else {
        occurrences(s.drop_last(), k) + if s.last() == k {
            1nat
        } else {
            0nat
        }
    }
}

/// The count recorded for `k` (0 when `k` has no entry).
pub open spec fn tally_get(v: Seq<(String, usize)>, k: Seq<char>) -> nat
    decreases v.len(),
{
    if v.len() == 0 {
        0
    } else if v.last().0@ == k {
        v.last().1 as nat
    } else {
        tally_get(v.drop_last(), k)
    }
}

/// No key has two entries.
pub open spec fn keys_distinct(v: Seq<(String, usize)>) -> bool {
    forall|i: int, j: int| 0 <= i < j < v.len() ==> (#[trigger] v[i]).0@ != (#[trigger] v[j]).0@
}

/// `v` counts the keys of `s`: one entry per distinct key, each with a positive
/// count equal to the number of occurrences of that key.
pub open spec fn is_tally_of(v: Seq<(String, usize)>, s: Seq<Seq<char>>) -> bool {
    &&& keys_distinct(v)
    &&& forall|i: int| 0 <= i < v.len() ==> (#[trigger] v[i]).1 > 0
    &&& forall|k: Seq<char>| #[trigger] tally_get(v, k) == occurrences(s, k)
}

pub proof fn lemma_occurrences_bound(s: Seq<Seq<char>>, k: Seq<char>)
    ensures
        occurrences(s, k) <= s.len(),
    decreases s.len(),
{
    if s.len() > 0 {
        lemma_occurrences_bound(s.drop_last(), k);
    }
}

proof fn lemma_tally_get_absent(v: Seq<(String, usize)>, k: Seq<char>)
    requires
        forall|i: int| 0 <= i < v.len() ==> (#[trigger] v[i]).0@ != k,
    ensures
        tally_get(v, k) == 0,
    decreases v.len(),
{
    if v.len() > 0 {
        assert(v.last().0@ != k);
        lemma_tally_get_absent(v.drop_last(), k);
    }
}

proof fn lemma_tally_get_at(v: Seq<(String, usize)>, i: int)
    requires
        keys_distinct(v),
        0 <= i < v.len(),
    ensures
        tally_get(v, v[i].0@) == v[i].1,
    decreases v.len(),
{
    if i == v.len() - 1 {
    } else {
        assert(v.last().0@ != v[i].0@);
        assert(v.drop_last()[i] == v[i]);
        lemma_tally_get_at(v.drop_last(), i);
    }
}

proof fn lemma_tally_get_update(v: Seq<(String, usize)>, i: int, c: usize, k: Seq<char>)
    requires
        keys_distinct(v),
        0 <= i < v.len(),
    ensures
        tally_get(v.update(i, (v[i].0, c)), k) == if k == v[i].0@ {
            c as nat
        } else {
            tally_get(v, k)
        },
    decreases v.len(),
{
    let w = v.update(i, (v[i].0, c));
    if i == v.len() - 1 {
        assert(w.drop_last() =~= v.drop_last());
    } else {
        assert(w.drop_last() =~= v.drop_last().update(i, (v[i].0, c)));
        assert(w.last() == v.last());
        assert(v.drop_last()[i] == v[i]);
        lemma_tally_get_update(v.drop_last(), i, c, k);
        if k == v[i].0@ {
            assert(v.last().0@ != v[i].0@);
        }
    }
}

/// An empty tally counts the empty sequence.
pub proof fn lemma_empty_tally()
    ensures
        is_tally_of(Seq::<(String, usize)>::empty(), Seq::<Seq<char>>::empty()),
{
    assert forall|k: Seq<char>|
        #[trigger] tally_get(Seq::<(String, usize)>::empty(), k) == occurrences(
            Seq::<Seq<char>>::empty(),
            k,
        ) by {}
}

/// Counts one more occurrence of `key`.
pub fn tally_add(v: &mut Vec<(String, usize)>, key: &String, Ghost(s): Ghost<Seq<Seq<char>>>)
    requires
        is_tally_of(old(v)@, s),
        s.len() < usize::MAX,
    ensures
        is_tally_of(final(v)@, s.push(key@)),
{
    let ghost s2 = s.push(key@);
    assert(s2.drop_last() =~= s);
    let mut i: usize = 0;
    while i < v.len()
        invariant
            i <= v.len(),
            is_tally_of(v@, s),
            s2 == s.push(key@),
            s2.drop_last() == s,
            s.len() < usize::MAX,
            forall|j: int| 0 <= j < i ==> (#[trigger] v@[j]).0@ != key@,
        decreases v.len() - i,
    {
        if v[i].0 == *key {
            proof {
                lemma_tally_get_at(v@, i as int);
                lemma_occurrences_bound(s2, key@);
            }
            let c = v[i].1 + 1;
            let name = v[i].0.clone();
            let ghost old_v = v@;
            v.set(i, (name, c));
            proof {
                assert(v@ == old_v.update(i as int, (old_v[i as int].0, c)));
                assert forall|k: Seq<char>| #[trigger] tally_get(v@, k) == occurrences(s2, k) by {
                    lemma_tally_get_update(old_v, i as int, c, k);
                }
                assert forall|a: int, b: int| 0 <= a < b < v@.len() implies (#[trigger] v@[a]).0@
                    != (#[trigger] v@[b]).0@ by {
                    assert(old_v[a].0@ != old_v[b].0@);
                }
            }
            return;
        }
        i = i + 1;
    }
    proof {
        lemma_tally_get_absent(v@, key@);
    }
    let ghost old_v = v@;
    v.push((key.clone(), 1));
    proof {
        assert(v@.drop_last() =~= old_v);
        assert forall|k: Seq<char>| #[trigger] tally_get(v@, k) == occurrences(s2, k) by {
            assert(tally_get(v@, k) == if k == key@ { 1 } else { tally_get(old_v, k) });
        }
        assert forall|a: int, b: int| 0 <= a < b < v@.len() implies (#[trigger] v@[a]).0@
            != (#[trigger] v@[b]).0@ by {
            if b < old_v.len() {
                assert(old_v[a].0@ != old_v[b].0@);
            }
        }
    }
}

/// The sum of the counts of a tally.
pub open spec fn tally_total(v: Seq<(String, usize)>) -> nat
    decreases v.len(),
{
    if v.len() == 0 {
        0
    } else {
        tally_total(v.drop_last()) + v.last().1 as nat
    }
}

/// The keys of a tally, in order.
pub open spec fn tally_keys(v: Seq<(String, usize)>) -> Seq<Seq<char>> {
    v.map_values(|e: (String, usize)| e.0@)
}

/// The occurrences in `s` of each of `keys`, added up.
pub open spec fn occurrence_sum(keys: Seq<Seq<char>>, s: Seq<Seq<char>>) -> nat
    decreases keys.len(),
{
    if keys.len() == 0 {
        0
    } else {
        occurrence_sum(keys.drop_last(), s) + occurrences(s, keys.last())
    }
}

/// One more element adds its occurrences among the keys.
proof fn lemma_occurrence_sum_push(keys: Seq<Seq<char>>, s: Seq<Seq<char>>, x: Seq<char>)
    ensures
        occurrence_sum(keys, s.push(x)) == occurrence_sum(keys, s) + occurrences(keys, x),
    decreases keys.len(),
{
    assert(s.push(x).drop_last() =~= s);
    if keys.len() > 0 {
        lemma_occurrence_sum_push(keys.drop_last(), s, x);
    }
}

/// A key that occurs in a list without repeats occurs once.
proof fn lemma_occurs_once(keys: Seq<Seq<char>>, x: Seq<char>)
    requires
        forall|i: int, j: int| 0 <= i < j < keys.len() ==> keys[i] != keys[j],
        keys.contains(x),
    ensures
        occurrences(keys, x) == 1,
    decreases keys.len(),
{
    let rest = keys.drop_last();
    if keys.last() == x {
        assert forall|i: int| 0 <= i < rest.len() implies rest[i] != x by {
            assert(keys[i] != keys[keys.len() - 1]);
        }
        lemma_occurrences_absent(rest, x);
    } else {
        let k = choose|k: int| 0 <= k < keys.len() && keys[k] == x;
        assert(rest[k] == x);
        lemma_occurs_once(rest, x);
    }
}

proof fn lemma_occurrences_absent(s: Seq<Seq<char>>, x: Seq<char>)
    requires
        forall|i: int| 0 <= i < s.len() ==> s[i] != x,
    ensures
        occurrences(s, x) == 0,
    decreases s.len(),
{
    if s.len() > 0 {
        assert(s.last() != x);
        lemma_occurrences_absent(s.drop_last(), x);
    }
}

/// Keys without repeats that cover every element count all the elements.
proof fn lemma_occurrence_sum_covers(keys: Seq<Seq<char>>, s: Seq<Seq<char>>)
    requires
        forall|i: int, j: int| 0 <= i < j < keys.len() ==> keys[i] != keys[j],
        forall|i: int| 0 <= i < s.len() ==> keys.contains(#[trigger] s[i]),
    ensures
        occurrence_sum(keys, s) == s.len(),
    decreases s.len(),
{
    if s.len() == 0 {
        assert(s =~= Seq::<Seq<char>>::empty());
        lemma_occurrence_sum_empty(keys);
    } else {
        let rest = s.drop_last();
        assert(s =~= rest.push(s.last()));
        assert forall|i: int| 0 <= i < rest.len() implies keys.contains(#[trigger] rest[i]) by {
            assert(rest[i] == s[i]);
        }
        lemma_occurrence_sum_covers(keys, rest);
        lemma_occurrence_sum_push(keys, rest, s.last());
        assert(keys.contains(s[s.len() - 1]));
        lemma_occurs_once(keys, s.last());
    }
}

proof fn lemma_occurrence_sum_empty(keys: Seq<Seq<char>>)
    ensures
        occurrence_sum(keys, Seq::empty()) == 0,
    decreases keys.len(),
{
    if keys.len() > 0 {
        lemma_occurrence_sum_empty(keys.drop_last());
    }
}

/// Every count of a tally adds up to the keys' occurrences.
proof fn lemma_tally_total_prefix(v: Seq<(String, usize)>, s: Seq<Seq<char>>, j: int)
    requires
        is_tally_of(v, s),
        0 <= j <= v.len(),
    ensures
        tally_total(v.take(j)) == occurrence_sum(tally_keys(v).take(j), s),
    decreases j,
{
    if j > 0 {
        lemma_tally_total_prefix(v, s, j - 1);
        assert(v.take(j).drop_last() =~= v.take(j - 1));
        assert(tally_keys(v).take(j).drop_last() =~= tally_keys(v).take(j - 1));
        lemma_tally_get_at(v, j - 1);
        assert(tally_get(v, v[j - 1].0@) == occurrences(s, v[j - 1].0@));
    }
}

/// The counts of a tally add up to the number of elements counted.
pub proof fn law_tally_total(v: Seq<(String, usize)>, s: Seq<Seq<char>>)
    requires
        is_tally_of(v, s),
    ensures
        tally_total(v) == s.len(),
{
    let keys = tally_keys(v);
    lemma_tally_total_prefix(v, s, v.len() as int);
    assert(v.take(v.len() as int) =~= v);
    assert(keys.take(v.len() as int) =~= keys);
    assert forall|i: int, j: int| 0 <= i < j < keys.len() implies keys[i] != keys[j] by {
        assert(v[i].0@ != v[j].0@);
    }
    assert forall|i: int| 0 <= i < s.len() implies keys.contains(#[trigger] s[i]) by {
        let x = s[i];
        assert(occurrences(s, x) > 0) by {
            lemma_occurrences_present(s, i);
        }
        if !keys.contains(x) {
            assert forall|a: int| 0 <= a < v.len() implies (#[trigger] v[a]).0@ != x by {
                assert(keys[a] == v[a].0@);
            }
            lemma_tally_get_absent(v, x);
        }
    }
    lemma_occurrence_sum_covers(keys, s);
}

proof fn lemma_occurrences_present(s: Seq<Seq<char>>, i: int)
    requires
        0 <= i < s.len(),
    ensures
        occurrences(s, s[i]) > 0,
    decreases s.len(),
{
    if i < s.len() - 1 {
        assert(s.drop_last()[i] == s[i]);
        lemma_occurrences_present(s.drop_last(), i);
    }
}

} // verus!
