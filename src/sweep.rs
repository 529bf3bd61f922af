//! Removing marked positions from a sequence of candidate keys.

use vstd::prelude::*;
use vstd::set_lib::{lemma_int_range, lemma_len_subset, lemma_subset_equality, set_int_range};

verus! {

broadcast use vstd::seq_lib::group_to_multiset_ensures;

/// The elements of `s` whose mark in `m` is false, in their original order.
pub open spec fn compact<K>(s: Seq<K>, m: Seq<bool>) -> Seq<K>
    decreases s.len(),
{
    if s.len() == 0 {
        Seq::empty()
    } else {
        let rest = compact(s.drop_last(), m.drop_last());
        if m.last() {
            rest
        } else {
            rest.push(s.last())
        }
    }
}

/// `t` keeps every occurrence of a key for which `dead` is false, and no more
/// occurrences of any key than `s` has.
pub open spec fn thinned<K>(s: Seq<K>, t: Seq<K>, dead: spec_fn(K) -> bool) -> bool {
    &&& forall|k: K| #[trigger] t.to_multiset().count(k) <= s.to_multiset().count(k)
    &&& forall|k: K| !dead(k) ==> #[trigger] t.to_multiset().count(k) == s.to_multiset().count(k)
}

/// How many marks are set.
pub open spec fn marked_count(m: Seq<bool>) -> nat
    decreases m.len(),
{
    if m.len() == 0 {
        0
    } else {
        marked_count(m.drop_last()) + if m.last() {
            1nat
        } else {
            0nat
        }
    }
}

/// The positions whose mark is set.
pub open spec fn marked_set(m: Seq<bool>) -> Set<int> {
    Set::new(|i: int| 0 <= i < m.len() && m[i])
}

/// The sampled positions, as a set.
pub open spec fn sample_set(samples: Seq<usize>) -> Set<int> {
    samples.map_values(|x: usize| x as int).to_set()
}

pub proof fn lemma_marked_set(m: Seq<bool>)
    ensures
        marked_set(m).finite(),
        marked_set(m).len() == marked_count(m),
    decreases m.len(),
{
    if m.len() == 0 {
        assert(marked_set(m) =~= Set::empty());
    } else {
        lemma_marked_set(m.drop_last());
        if m.last() {
            assert(marked_set(m) =~= marked_set(m.drop_last()).insert(m.len() - 1));
        } else {
            assert(marked_set(m) =~= marked_set(m.drop_last()));
        }
    }
}

pub proof fn lemma_sample_set(samples: Seq<usize>)
    requires
        samples.no_duplicates(),
    ensures
        sample_set(samples).finite(),
        sample_set(samples).len() == samples.len(),
        forall|j: int| 0 <= j < samples.len() ==> sample_set(samples).contains(samples[j] as int),
        forall|i: int| #[trigger]
            sample_set(samples).contains(i) ==> 0 <= i && samples.contains(i as usize),
{
    let f = |x: usize| x as int;
    let ints = samples.map_values(f);
    samples.lemma_no_duplicates_injective(f);
    ints.unique_seq_to_set();
    assert forall|j: int| 0 <= j < samples.len() implies sample_set(samples).contains(
        samples[j] as int,
    ) by {
        assert(ints[j] == samples[j] as int);
    }
    assert forall|i: int| #[trigger] sample_set(samples).contains(i) implies 0 <= i
        && samples.contains(i as usize) by {
        let j = choose|j: int| 0 <= j < ints.len() && ints[j] == i;
        assert(samples[j] == i as usize);
    }
}

/// When every sampled position is marked, at least as many marks as
/// samples are set; when only sampled positions are, at most as many.
pub proof fn lemma_marks_against_samples(m: Seq<bool>, samples: Seq<usize>)
    requires
        samples.no_duplicates(),
        m.len() <= usize::MAX,
        forall|j: int| 0 <= j < samples.len() ==> samples[j] < m.len(),
    ensures
        (forall|j: int| 0 <= j < samples.len() ==> m[samples[j] as int]) ==> samples.len()
            <= marked_count(m),
        (forall|i: int| 0 <= i < m.len() && m[i] ==> samples.contains(i as usize)) ==> marked_count(m)
            <= samples.len(),
{
    lemma_marked_set(m);
    lemma_sample_set(samples);
    let ss = sample_set(samples);
    let ms = marked_set(m);
    if forall|j: int| 0 <= j < samples.len() ==> m[samples[j] as int] {
        assert forall|i: int| ss.contains(i) implies ms.contains(i) by {
            let j = choose|j: int| 0 <= j < samples.len() && samples[j] == i as usize;
        }
        lemma_len_subset(ss, ms);
    }
    if forall|i: int| 0 <= i < m.len() && m[i] ==> samples.contains(i as usize) {
        assert forall|i: int| ms.contains(i) implies ss.contains(i) by {
            assert(0 <= i < m.len() && m[i]);
            assert(samples.contains(i as usize));
            let j = choose|j: int| 0 <= j < samples.len() && samples[j] == i as usize;
            assert(samples[j] < m.len());
            assert(samples[j] as int == i);
            assert(ss.contains(samples[j] as int));
        }
        lemma_len_subset(ms, ss);
    }
}

pub proof fn lemma_compact_len<K>(s: Seq<K>, m: Seq<bool>)
    requires
        m.len() == s.len(),
    ensures
        compact(s, m).len() <= s.len(),
        compact(s, m).len() == s.len() - marked_count(m),
        (forall|i: int| 0 <= i < s.len() ==> !m[i]) ==> compact(s, m) == s,
    decreases s.len(),
{
    if s.len() > 0 {
        lemma_compact_len(s.drop_last(), m.drop_last());
        if forall|i: int| 0 <= i < s.len() ==> !m[i] {
            assert(m.last() == m[s.len() - 1]);
            assert(s.drop_last().push(s.last()) =~= s);
        }
    }
}

/// Compacting removes only marked occurrences.
pub proof fn lemma_compact_counts<K>(s: Seq<K>, m: Seq<bool>, k: K)
    requires
        m.len() == s.len(),
    ensures
        compact(s, m).to_multiset().count(k) <= s.to_multiset().count(k),
        (forall|i: int| 0 <= i < s.len() && s[i] == k ==> !m[i]) ==> compact(s, m).to_multiset().count(k)
            == s.to_multiset().count(k),
    decreases s.len(),
{
    if s.len() > 0 {
        let d = s.drop_last();
        lemma_compact_counts(d, m.drop_last(), k);
        assert(d.push(s.last()) =~= s);
        assert(s.to_multiset() =~= d.to_multiset().insert(s.last()));
        if forall|i: int| 0 <= i < s.len() && s[i] == k ==> !m[i] {
            assert forall|i: int| 0 <= i < d.len() && d[i] == k implies !m.drop_last()[i] by {
                assert(s[i] == d[i]);
            }
            if s.last() == k {
                assert(s[s.len() - 1] == k);
            }
        }
    }
}

/// Compacting where each position is marked when `dead` holds of its key is
/// filtering out the dead keys.
pub proof fn lemma_compact_by_key<K>(s: Seq<K>, m: Seq<bool>, dead: spec_fn(K) -> bool)
    requires
        m.len() == s.len(),
        forall|i: int| 0 <= i < s.len() ==> m[i] == dead(s[i]),
    ensures
        compact(s, m) == s.filter(|k: K| !dead(k)),
    decreases s.len(),
{
    if s.len() > 0 {
        lemma_compact_by_key(s.drop_last(), m.drop_last(), dead);
        assert(m.last() == m[s.len() - 1]);
        let keep = |k: K| !dead(k);
        reveal(Seq::filter);
        assert(s.filter(keep) == if keep(s.last()) {
            s.drop_last().filter(keep).push(s.last())
        } else {
            s.drop_last().filter(keep)
        });
    } else {
        reveal(Seq::filter);
        assert(s =~= Seq::empty());
    }
}

/// `n` distinct indices below `n` are all the indices below `n`.
pub proof fn lemma_full_sample(samples: Seq<usize>, n: nat)
    requires
        samples.no_duplicates(),
        samples.len() == n,
        forall|j: int| 0 <= j < samples.len() ==> samples[j] < n,
    ensures
        forall|i: usize| i < n ==> #[trigger] samples.contains(i),
{
    let f = |x: usize| x as int;
    let ints = samples.map_values(f);
    samples.lemma_no_duplicates_injective(f);
    ints.unique_seq_to_set();
    let s = ints.to_set();
    let range = set_int_range(0, n as int);
    lemma_int_range(0, n as int);
    assert forall|x: int| s.contains(x) implies range.contains(x) by {
        let j = choose|j: int| 0 <= j < ints.len() && ints[j] == x;
        assert(samples[j] < n);
    }
    lemma_subset_equality(s, range);
    assert forall|i: usize| i < n implies #[trigger] samples.contains(i) by {
        assert(range.contains(i as int));
        let j = choose|j: int| 0 <= j < ints.len() && ints[j] == i as int;
        assert(samples[j] == i);
    }
}

/// Drops the positions below `marks.len()` whose mark is set; the positions
/// from `marks.len()` on are kept as they are.
pub fn compact_prefix<K: Copy>(keys: &Vec<K>, marks: &Vec<bool>) -> (r: Vec<K>)
    requires
        marks@.len() <= keys@.len(),
    ensures
        r@ == compact(keys@.take(marks@.len() as int), marks@) + keys@.skip(marks@.len() as int),
        r@.len() == keys@.len() - marked_count(marks@),
{
    let m = marks.len();
    let ghost s = keys@.take(m as int);
    let mut out: Vec<K> = Vec::new();
    let mut i: usize = 0;
    while i < m
        invariant
            i <= m,
            m == marks@.len(),
            m <= keys@.len(),
            s == keys@.take(m as int),
            out@ == compact(s.take(i as int), marks@.take(i as int)),
        decreases m - i,
    {
        assert(s.take(i + 1).drop_last() =~= s.take(i as int));
        assert(marks@.take(i + 1).drop_last() =~= marks@.take(i as int));
        if !marks[i] {
            out.push(keys[i]);
        }
        i = i + 1;
    }
    assert(s.take(m as int) =~= s);
    assert(marks@.take(m as int) =~= marks@);
    proof {
        lemma_compact_len(s, marks@);
    }
    let ghost head = out@;
    let n = keys.len();
    let mut j: usize = m;
    while j < n
        invariant
            m <= j <= n,
            n == keys@.len(),
            head.len() <= m,
            out@ == head + keys@.subrange(m as int, j as int),
        decreases n - j,
    {
        out.push(keys[j]);
        assert(keys@.subrange(m as int, j + 1) =~= keys@.subrange(m as int, j as int).push(keys@[j as int]));
        j = j + 1;
    }
    assert(keys@.subrange(m as int, n as int) =~= keys@.skip(m as int));
    out
}

} // verus!
