//! Sorting and medians of integer samples.
use vstd::prelude::*;
use vstd::relations::{sorted_by, total_ordering};

verus! {

/// The usual order on `i64`.
pub open spec fn le_i64() -> spec_fn(i64, i64) -> bool {
    |a: i64, b: i64| a <= b
}

/// The values of `s` in ascending order.
pub open spec fn sorted_i64(s: Seq<i64>) -> Seq<i64> {
    s.sort_by(le_i64())
}

/// The middle of a sample: the middle value, or the two middle values when
/// the sample has an even number of values (the median is then their mean).
#[derive(Debug, Clone, Copy, PartialEq, Eq, Structural)]
pub enum Median {
    /// Odd number of values: the middle one
    Middle(i64),
    /// Even number of values: the two middle ones, lower first
    Between(i64, i64),
}

/// The middle of an ascending sequence.
pub open spec fn median_of_sorted(t: Seq<i64>) -> Median {
    let mid = (t.len() / 2) as int;
    if t.len() % 2 == 0 {
        Median::Between(t[mid - 1], t[mid])
    } else {
        Median::Middle(t[mid])
    }
}

/// The median of a sample, `None` for an empty one.
pub open spec fn median_spec(s: Seq<i64>) -> Option<Median> {
    if s.len() == 0 {
        None
    } else {
        Some(median_of_sorted(sorted_i64(s)))
    }
}

proof fn lemma_le_total()
    ensures
        total_ordering(le_i64()),
{
}

proof fn lemma_swap_multiset(s: Seq<i64>, a: int, b: int)
    requires
        0 <= a < s.len(),
        0 <= b < s.len(),
    ensures
        s.update(a, s[b]).update(b, s[a]).to_multiset() =~= s.to_multiset(),
{
    broadcast use vstd::seq_lib::group_to_multiset_ensures;
    broadcast use vstd::multiset::group_multiset_properties;
    broadcast use vstd::multiset::group_multiset_axioms;

    let s1 = s.update(a, s[b]);
    assert(s1.to_multiset() == s.to_multiset().insert(s[b]).remove(s[a]));
    assert(s1[b] == if a == b { s[b] } else { s[b] });
    assert(s1.update(b, s[a]).to_multiset() == s1.to_multiset().insert(s[a]).remove(s1[b]));
}

/// Sorts the values in ascending order.
pub fn sort_values(v: &mut Vec<i64>)
    ensures
        final(v)@ == sorted_i64(old(v)@),
{
    let ghost orig = v@;
    let n = v.len();
    if n == 0 {
        proof {
            assert(v@ =~= orig);
            assert(sorted_by(v@, le_i64()));
            lemma_le_total();
            orig.lemma_sort_by_ensures(le_i64());
            vstd::seq_lib::lemma_sorted_unique(v@, orig.sort_by(le_i64()), le_i64());
        }
        return;
    }
    let mut i: usize = 1;
    while i < n
        invariant
            n == v.len(),
            1 <= i <= n,
            v@.to_multiset() == orig.to_multiset(),
            sorted_by(v@.subrange(0, i as int), le_i64()),
        decreases n - i,
    {
        assert forall|a: int, b: int| 0 <= a < b < i implies v@[a] <= v@[b] by {
            assert(le_i64()(v@.subrange(0, i as int)[a], v@.subrange(0, i as int)[b]));
        }
        let mut j: usize = i;
        while j > 0 && v[j - 1] > v[j]
            invariant
                n == v.len(),
                1 <= i < n,
                j <= i,
                v@.to_multiset() == orig.to_multiset(),
                forall|a: int, b: int| 0 <= a < b < j ==> v@[a] <= v@[b],
                forall|a: int, b: int| j <= a < b <= i ==> v@[a] <= v@[b],
                forall|a: int, b: int| 0 <= a < j && j < b <= i ==> v@[a] <= v@[b],
            decreases j,
        {
            proof {
                lemma_swap_multiset(v@, j - 1, j as int);
            }
            let x = v[j - 1];
            let y = v[j];
            v.set(j - 1, y);
            v.set(j, x);
            j = j - 1;
        }
        assert(sorted_by(v@.subrange(0, i + 1), le_i64())) by {
            assert forall|a: int, b: int| 0 <= a < b < i + 1 implies #[trigger] le_i64()(
                v@.subrange(0, i + 1)[a],
                v@.subrange(0, i + 1)[b],
            ) by {
                if j > 0 && a < j && b == j {
                    assert(v@[j - 1] <= v@[j as int]);
                    if a < j - 1 {
                        assert(v@[a] <= v@[j - 1]);
                    }
                }
            }
        }
        i = i + 1;
    }
    proof {
        assert(v@.subrange(0, n as int) =~= v@);
        lemma_le_total();
        orig.lemma_sort_by_ensures(le_i64());
        vstd::seq_lib::lemma_sorted_unique(v@, orig.sort_by(le_i64()), le_i64());
    }
}

/// The median of the values (`None` for none).
pub fn median(values: &[i64]) -> (r: Option<Median>)
    ensures
        r == median_spec(values@),
{
    if values.len() == 0 {
        return None;
    }
    let mut sorted: Vec<i64> = Vec::new();
    let mut k: usize = 0;
    while k < values.len()
        invariant
            k <= values.len(),
            sorted@ == values@.subrange(0, k as int),
        decreases values.len() - k,
    {
        sorted.push(values[k]);
        k = k + 1;
    }
    assert(sorted@ =~= values@);
    sort_values(&mut sorted);
    proof {
        values@.lemma_sort_by_ensures(le_i64());
        assert(sorted@.len() == values@.len()) by {
            broadcast use vstd::seq_lib::group_to_multiset_ensures;
            assert(sorted@.to_multiset().len() == values@.to_multiset().len());
        }
    }
    let mid = sorted.len() / 2;
    if sorted.len() % 2 == 0 {
        Some(Median::Between(sorted[mid - 1], sorted[mid]))
    } else {
        Some(Median::Middle(sorted[mid]))
    }
}

/// The median of a sample is made of its own values: the middle value is
/// one of the samples, and of two middle values, both are samples and the
/// lower comes first.
pub proof fn law_median_from_samples(s: Seq<i64>)
    requires
        s.len() > 0,
    ensures
        median_spec(s) matches Some(Median::Middle(m)) ==> s.contains(m),
        median_spec(s) matches Some(Median::Between(a, b)) ==> s.contains(a) && s.contains(b) && a <= b,
{
    lemma_le_total();
    s.lemma_sort_by_ensures(le_i64());
    let t = sorted_i64(s);
    assert(t.len() == s.len()) by {
        broadcast use vstd::seq_lib::group_to_multiset_ensures;
        assert(t.to_multiset().len() == s.to_multiset().len());
    }
    let mid = (t.len() / 2) as int;
    assert(t.contains(t[mid]));
    if t.len() % 2 == 0 {
        assert(t.contains(t[mid - 1]));
        assert(le_i64()(t[mid - 1], t[mid]));
    }
}

} // verus!
